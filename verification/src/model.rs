//! The decoded model and the decoder.

use crate::bits::{negate, negated};
use crate::buf::{le_u16, le_u32};
use crate::cursor::{
    lemma_moves_read_from, lemma_reads_read_from, reads_from, ByteCursor, CursorView,
};
use crate::error::{Malformed, Missing, RdmError};
use crate::format::{lemma_open_table_at, open_table, spec_open_table, TableHeader};
use crate::submesh::{sort_by_mesh, sorted_by_mesh, stable_sort_by_mesh, MeshInstance};
use crate::vertex::{lemma_vertex_block_at, spec_vertex_block, VertexBlock, VertexFormat2};
use crate::rdm_anim::RDAnim;
use crate::rdm_material::RDMaterial;
use crate::text::string_from_utf8;
use vstd::prelude::*;
use vstd::utf8::{decode_utf8, valid_utf8};

verus! {

/// Where the pointer to the skin table stands; 0 there means that the
/// model has no skeleton.
pub const SKIN_OFFSET: u32 = 40;

/// Size of one record of the joint table.
pub const JOINT_STRIDE: u32 = 84;

/// The word that follows the length of a joint name.
pub const NAME_TAG: u32 = 1;

/// The parent id of a joint that has no parent.
pub const ROOT_PARENT: u8 = 255;

/// Where the pointer to the meta block stands.
pub const META_OFFSET: u32 = 32;

/// Where, from the start of the meta block, the pointer to the triangle
/// table stands. It follows the pointer to the vertex table.
pub const TRIANGLES_META: u32 = 16;

/// Where, from the start of the meta block, the pointer to the submesh
/// table stands.
pub const SUBMESH_META: u32 = 20;

/// Size of one record of the submesh table: three used words and 16 bytes
/// of padding.
pub const SUBMESH_STRIDE: u32 = 28;

/// Size of one triangle index.
pub const INDEX_STRIDE: u32 = 2;

/// The file starts with the five signature bytes.
pub open spec fn has_magic(data: Seq<u8>) -> bool {
    &&& data.len() >= 5
    &&& data[0] == 0x52
    &&& data[1] == 0x44
    &&& data[2] == 0x4D
    &&& data[3] == 0x01
    &&& data[4] == 0x14
}

/// Three indices into the vertex array.
#[derive(Clone, Copy, Debug, PartialEq, Eq)]
pub struct Triangle {
    pub indices: [u16; 3],
}

/// The submesh record that starts `at` bytes into `bytes`.
pub open spec fn submesh_at(bytes: Seq<u8>, at: int) -> MeshInstance {
    MeshInstance {
        start_index_location: le_u32(bytes.skip(at)),
        index_count: le_u32(bytes.skip(at + 4)),
        mesh: le_u32(bytes.skip(at + 8)),
    }
}

/// The three indices of the triangle that starts `at` bytes into `bytes`.
pub open spec fn triangle_at(bytes: Seq<u8>, at: int) -> Seq<u16> {
    seq![le_u16(bytes.skip(at)), le_u16(bytes.skip(at + 2)), le_u16(bytes.skip(at + 4))]
}

/// `count` submesh records in file order, read from the cursor.
pub open spec fn spec_submesh_records(c: CursorView, count: u32) -> Result<
    Seq<MeshInstance>,
    Malformed,
> {
    if SUBMESH_STRIDE as nat * count as nat > c.rest.len() {
        Err(Malformed::Truncated)
    } else {
        Ok(Seq::new(count as nat, |i: int| submesh_at(c.rest, SUBMESH_STRIDE as int * i)))
    }
}

/// The records of the submesh table that the meta block at `meta` points
/// to, in the order of the file.
pub open spec fn spec_submesh_table(c: CursorView, meta: u32) -> Result<
    Seq<MeshInstance>,
    Malformed,
> {
    if meta as nat + SUBMESH_META as nat > u32::MAX {
        Err(Malformed::InvalidOffset)
    } else {
        match c.seek_absolute(meta as nat + SUBMESH_META as nat) {
            Err(e) => Err(e),
            Ok(c1) => match c1.read_u32() {
                Err(e) => Err(e),
                Ok((ptr, c2)) => match spec_open_table(c2, ptr) {
                    Err(e) => Err(e),
                    Ok((h, c3)) => if h.stride != SUBMESH_STRIDE {
                        Err(Malformed::SubmeshStride)
                    } else {
                        match spec_submesh_records(c3, h.count) {
                            Err(e) => Err(e),
                            Ok(records) => if records.len() == 0 {
                                Err(Malformed::NoSubmesh)
                            } else {
                                Ok(records)
                            },
                        }
                    },
                },
            },
        }
    }
}

/// The submesh table that the meta block at `meta` points to, sorted by
/// id.
pub open spec fn spec_check_multi_mesh(c: CursorView, meta: u32) -> Result<
    Seq<MeshInstance>,
    Malformed,
> {
    match spec_submesh_table(c, meta) {
        Err(e) => Err(e),
        Ok(records) => Ok(stable_sort_by_mesh(records)),
    }
}

/// The meta pointer, and the cursor behind the three words that start at
/// `META_OFFSET`.
pub open spec fn spec_header(data: Seq<u8>) -> Result<(u32, CursorView), Malformed> {
    match (CursorView { consumed: 0, rest: data }).skip(META_OFFSET as nat) {
        Err(e) => Err(e),
        Ok(c1) => match c1.read_u32() {
            Err(e) => Err(e),
            Ok((meta, c2)) => match c2.skip(8) {
                Err(e) => Err(e),
                Ok(c3) => Ok((meta, c3)),
            },
        },
    }
}

/// The triangle table as the file has it.
pub struct TriangleTable {
    pub offset: u32,
    pub index_count: u32,
    pub index_size: u32,
    pub triangles: Seq<Seq<u16>>,
}

/// The triangles behind a table header that announced `count` indices.
pub open spec fn spec_triangles(c: CursorView, count: u32) -> Result<Seq<Seq<u16>>, Malformed> {
    let window = c.truncate_to(INDEX_STRIDE as nat * count as nat);
    if INDEX_STRIDE as nat * count as nat > window.rest.len() {
        Err(Malformed::Truncated)
    } else {
        Ok(Seq::new((count / 3) as nat, |i: int| triangle_at(window.rest, 6 * i)))
    }
}

/// The triangle table that the meta block at `meta` points to, read with
/// the cursor that has read the header. On its way the cursor passes the
/// header of the vertex table, which therefore lies before that of the
/// triangle table.
pub open spec fn spec_triangle_table(c: CursorView, meta: u32) -> Result<TriangleTable, Malformed> {
    match c.seek_absolute(meta as nat) {
        Err(e) => Err(e),
        Ok(c1) => match c1.skip(crate::vertex::VERTEX_META as nat) {
            Err(e) => Err(e),
            Ok(c2) => match c2.read_u32() {
                Err(e) => Err(e),
                Ok((vertex_ptr, c3)) => match c3.read_u32() {
                    Err(e) => Err(e),
                    Ok((triangle_ptr, c4)) => if vertex_ptr < crate::format::TABLE_HEADER_SIZE {
                        Err(Malformed::InvalidOffset)
                    } else {
                        match c4.seek_absolute(
                            (vertex_ptr - crate::format::TABLE_HEADER_SIZE) as nat,
                        ) {
                            Err(e) => Err(e),
                            Ok(c5) => match spec_open_table(c5, triangle_ptr) {
                                Err(e) => Err(e),
                                Ok((h, c6)) => if h.stride != INDEX_STRIDE {
                                    Err(Malformed::IndexStride)
                                } else if h.count % 3 != 0 {
                                    Err(Malformed::IndexCount)
                                } else {
                                    match spec_triangles(c6, h.count) {
                                        Err(e) => Err(e),
                                        Ok(triangles) => Ok(
                                            TriangleTable {
                                                offset: triangle_ptr,
                                                index_count: h.count,
                                                index_size: h.stride,
                                                triangles,
                                            },
                                        ),
                                    }
                                },
                            },
                        }
                    },
                },
            },
        }
    }
}

/// All that decoding a file yields.
pub struct Decoded {
    pub meta: u32,
    pub vertex: VertexBlock,
    pub submeshes: Seq<MeshInstance>,
    pub triangles: TriangleTable,
}

/// What a file decodes to, or why it does not.
pub open spec fn spec_decode(data: Seq<u8>) -> Result<Decoded, Malformed> {
    if !has_magic(data) {
        Err(Malformed::Magic)
    } else {
        match spec_header(data) {
            Err(e) => Err(e),
            Ok((meta, c)) => match spec_vertex_block(c, meta) {
                Err(e) => Err(e),
                Ok(vertex) => match spec_check_multi_mesh(
                    CursorView { consumed: 0, rest: data },
                    meta,
                ) {
                    Err(e) => Err(e),
                    Ok(submeshes) => match spec_triangle_table(c, meta) {
                        Err(e) => Err(e),
                        Ok(triangles) => Ok(Decoded { meta, vertex, submeshes, triangles }),
                    },
                },
            },
        }
    }
}

/// A file that does not start with the signature is refused for that
/// reason, whatever else it holds.
pub proof fn lemma_magic_checked_first(data: Seq<u8>)
    requires
        !has_magic(data),
    ensures
        spec_decode(data) == Err::<Decoded, Malformed>(Malformed::Magic),
{
}

/// A triangle table that is read has indices of two bytes, announces
/// three indices for each triangle, and every triangle has three
/// indices.
#[verifier::rlimit(50)]
proof fn lemma_triangle_table(c: CursorView, meta: u32)
    requires
        spec_triangle_table(c, meta) is Ok,
    ensures
        spec_triangle_table(c, meta)->Ok_0.index_size == 2,
        spec_triangle_table(c, meta)->Ok_0.index_count == 3 * spec_triangle_table(
            c,
            meta,
        )->Ok_0.triangles.len(),
        forall|i: int|
            0 <= i < spec_triangle_table(c, meta)->Ok_0.triangles.len() ==> (
            #[trigger] spec_triangle_table(c, meta)->Ok_0.triangles[i]).len() == 3,
{
    let c1 = c.seek_absolute(meta as nat)->Ok_0;
    let c2 = c1.skip(crate::vertex::VERTEX_META as nat)->Ok_0;
    let (vertex_ptr, c3) = c2.read_u32()->Ok_0;
    let (triangle_ptr, c4) = c3.read_u32()->Ok_0;
    let c5 = c4.seek_absolute((vertex_ptr - crate::format::TABLE_HEADER_SIZE) as nat)->Ok_0;
    let (h, c6) = spec_open_table(c5, triangle_ptr)->Ok_0;
    assert(spec_triangle_table(c, meta)->Ok_0.triangles == spec_triangles(c6, h.count)->Ok_0);
    assert(h.count % 3 == 0);
}

/// In a decoded model every index is two bytes long, and the number of
/// indices that the triangle table announces is three times the number
/// of triangles.
#[verifier::rlimit(50)]
pub proof fn lemma_index_count(data: Seq<u8>)
    requires
        spec_decode(data) is Ok,
    ensures
        spec_decode(data)->Ok_0.triangles.index_size == 2,
        spec_decode(data)->Ok_0.triangles.index_count == 3 * spec_decode(
            data,
        )->Ok_0.triangles.triangles.len(),
        forall|i: int|
            0 <= i < spec_decode(data)->Ok_0.triangles.triangles.len() ==> (#[trigger] spec_decode(
                data,
            )->Ok_0.triangles.triangles[i]).len() == 3,
{
    let (meta, c) = spec_header(data)->Ok_0;
    assert(spec_triangle_table(c, meta) is Ok);
    assert(spec_decode(data)->Ok_0.triangles == spec_triangle_table(c, meta)->Ok_0);
    lemma_triangle_table(c, meta);
}

/// The submeshes of a decoded model are those of the file's table, each
/// once, in ascending order of id; the index counts add up as they do in
/// the file; and where the file has no id twice, the ids go strictly up.
#[verifier::rlimit(50)]
pub proof fn lemma_submeshes_sorted(data: Seq<u8>)
    requires
        spec_decode(data) is Ok,
    ensures
        spec_submesh_table(
            CursorView { consumed: 0, rest: data },
            spec_decode(data)->Ok_0.meta,
        ) is Ok,
        ({
            let records = spec_submesh_table(
                CursorView { consumed: 0, rest: data },
                spec_decode(data)->Ok_0.meta,
            )->Ok_0;
            let submeshes = spec_decode(data)->Ok_0.submeshes;
            &&& submeshes == stable_sort_by_mesh(records)
            &&& submeshes.len() == records.len()
            &&& submeshes.len() > 0
            &&& submeshes.to_multiset() == records.to_multiset()
            &&& sorted_by_mesh(submeshes)
            &&& crate::submesh::index_count_sum(submeshes) == crate::submesh::index_count_sum(
                records,
            )
            &&& crate::submesh::distinct_meshes(records)
                ==> crate::submesh::strictly_sorted_by_mesh(submeshes)
        }),
{
    let meta = spec_decode(data)->Ok_0.meta;
    let records = spec_submesh_table(CursorView { consumed: 0, rest: data }, meta)->Ok_0;
    crate::submesh::lemma_stable_sort(records);
    if crate::submesh::distinct_meshes(records) {
        crate::submesh::lemma_stable_sort_distinct(records);
    }
}

/// The meta pointer stands at `META_OFFSET`, and the cursor that has read
/// the header stands 44 bytes into the file.
proof fn lemma_header_at(data: Seq<u8>)
    requires
        spec_header(data) is Ok,
    ensures
        spec_header(data)->Ok_0.0 == le_u32(data.skip(META_OFFSET as int)),
        reads_from(spec_header(data)->Ok_0.1, data),
        spec_header(data)->Ok_0.1.consumed == 44,
{
    let c0 = CursorView { consumed: 0, rest: data };
    assert(data.subrange(0, data.len() as int) =~= data);
    lemma_moves_read_from(c0, data, META_OFFSET as nat);
    let c1 = c0.skip(META_OFFSET as nat)->Ok_0;
    lemma_reads_read_from(c1, data);
    let c2 = c1.read_u32()->Ok_0.1;
    lemma_moves_read_from(c2, data, 8);
}

/// A submesh record read from a part of a file is the record that the
/// file has at that place.
proof fn lemma_submesh_in_part(part: Seq<u8>, data: Seq<u8>, base: int, at: int)
    requires
        0 <= base,
        base + part.len() <= data.len(),
        part == data.subrange(base, base + part.len()),
        0 <= at,
        at + 12 <= part.len(),
    ensures
        submesh_at(part, at) == submesh_at(data, base + at),
{
    assert(part.skip(at)[0] == data.skip(base + at)[0]);
    assert(part.skip(at)[1] == data.skip(base + at)[1]);
    assert(part.skip(at)[2] == data.skip(base + at)[2]);
    assert(part.skip(at)[3] == data.skip(base + at)[3]);
    assert(part.skip(at + 4)[0] == data.skip(base + at + 4)[0]);
    assert(part.skip(at + 4)[1] == data.skip(base + at + 4)[1]);
    assert(part.skip(at + 4)[2] == data.skip(base + at + 4)[2]);
    assert(part.skip(at + 4)[3] == data.skip(base + at + 4)[3]);
    assert(part.skip(at + 8)[0] == data.skip(base + at + 8)[0]);
    assert(part.skip(at + 8)[1] == data.skip(base + at + 8)[1]);
    assert(part.skip(at + 8)[2] == data.skip(base + at + 8)[2]);
    assert(part.skip(at + 8)[3] == data.skip(base + at + 8)[3]);
}

/// A triangle read from a part of a file is the triangle that the file
/// has at that place.
proof fn lemma_triangle_in_part(part: Seq<u8>, data: Seq<u8>, base: int, at: int)
    requires
        0 <= base,
        base + part.len() <= data.len(),
        part == data.subrange(base, base + part.len()),
        0 <= at,
        at + 6 <= part.len(),
    ensures
        triangle_at(part, at) == triangle_at(data, base + at),
{
    assert(part.skip(at)[0] == data.skip(base + at)[0]);
    assert(part.skip(at)[1] == data.skip(base + at)[1]);
    assert(part.skip(at + 2)[0] == data.skip(base + at + 2)[0]);
    assert(part.skip(at + 2)[1] == data.skip(base + at + 2)[1]);
    assert(part.skip(at + 4)[0] == data.skip(base + at + 4)[0]);
    assert(part.skip(at + 4)[1] == data.skip(base + at + 4)[1]);
    assert(triangle_at(part, at) =~= triangle_at(data, base + at));
}

/// The pointer to the submesh table stands 20 bytes into the meta block;
/// the table's header says how many records there are; and record `i`
/// stands 28 `i` bytes behind the pointer.
#[verifier::rlimit(50)]
pub proof fn lemma_submesh_table_at(c: CursorView, data: Seq<u8>, meta: u32)
    requires
        reads_from(c, data),
        spec_submesh_table(c, meta) is Ok,
    ensures
        ({
            let ptr = le_u32(data.skip(meta + SUBMESH_META));
            let records = spec_submesh_table(c, meta)->Ok_0;
            &&& ptr >= 8
            &&& records.len() == le_u32(data.skip(ptr - 8))
            &&& le_u32(data.skip(ptr - 4)) == SUBMESH_STRIDE
            &&& forall|i: int|
                0 <= i < records.len() ==> #[trigger] records[i] == submesh_at(
                    data,
                    ptr + SUBMESH_STRIDE * i,
                )
        }),
{
    lemma_moves_read_from(c, data, meta as nat + SUBMESH_META as nat);
    let c1 = c.seek_absolute(meta as nat + SUBMESH_META as nat)->Ok_0;
    lemma_reads_read_from(c1, data);
    let (ptr, c2) = c1.read_u32()->Ok_0;
    lemma_open_table_at(c2, data, ptr);
    let (h, c3) = spec_open_table(c2, ptr)->Ok_0;
    let records = spec_submesh_records(c3, h.count)->Ok_0;
    assert(spec_submesh_table(c, meta)->Ok_0 == records);
    assert(c3.consumed == ptr);
    assert forall|i: int| 0 <= i < records.len() implies #[trigger] records[i] == submesh_at(
        data,
        ptr + SUBMESH_STRIDE * i,
    ) by {
        lemma_submesh_in_part(c3.rest, data, ptr as int, SUBMESH_STRIDE * i);
    }
}

/// The pointer to the triangle table stands 16 bytes into the meta
/// block; the table's header says how many indices there are; and
/// triangle `i` stands 6 `i` bytes behind the pointer.
#[verifier::rlimit(50)]
pub proof fn lemma_triangle_table_at(c: CursorView, data: Seq<u8>, meta: u32)
    requires
        reads_from(c, data),
        spec_triangle_table(c, meta) is Ok,
    ensures
        ({
            let table = spec_triangle_table(c, meta)->Ok_0;
            &&& table.offset == le_u32(data.skip(meta + TRIANGLES_META))
            &&& table.offset >= 8
            &&& table.index_count == le_u32(data.skip(table.offset - 8))
            &&& table.index_size == le_u32(data.skip(table.offset - 4))
            &&& forall|i: int|
                0 <= i < table.triangles.len() ==> #[trigger] table.triangles[i] == triangle_at(
                    data,
                    table.offset + 6 * i,
                )
        }),
{
    lemma_moves_read_from(c, data, meta as nat);
    let c1 = c.seek_absolute(meta as nat)->Ok_0;
    lemma_moves_read_from(c1, data, crate::vertex::VERTEX_META as nat);
    let c2 = c1.skip(crate::vertex::VERTEX_META as nat)->Ok_0;
    lemma_reads_read_from(c2, data);
    let (vertex_ptr, c3) = c2.read_u32()->Ok_0;
    lemma_reads_read_from(c3, data);
    let (triangle_ptr, c4) = c3.read_u32()->Ok_0;
    lemma_moves_read_from(c4, data, (vertex_ptr - crate::format::TABLE_HEADER_SIZE) as nat);
    let c5 = c4.seek_absolute((vertex_ptr - crate::format::TABLE_HEADER_SIZE) as nat)->Ok_0;
    lemma_open_table_at(c5, data, triangle_ptr);
    let (h, c6) = spec_open_table(c5, triangle_ptr)->Ok_0;
    lemma_moves_read_from(c6, data, INDEX_STRIDE as nat * h.count as nat);
    let window = c6.truncate_to(INDEX_STRIDE as nat * h.count as nat);
    let table = spec_triangle_table(c, meta)->Ok_0;
    assert(table.triangles == spec_triangles(c6, h.count)->Ok_0);
    assert(table.offset == triangle_ptr);
    assert(window.consumed == triangle_ptr);
    assert forall|i: int| 0 <= i < table.triangles.len() implies #[trigger] table.triangles[i]
        == triangle_at(data, table.offset + 6 * i) by {
        lemma_triangle_in_part(window.rest, data, triangle_ptr as int, 6 * i);
    }
}

/// Where a decoded model has its parts from: the meta pointer stands at
/// byte 32; the meta block holds, at 12, 16 and 20 bytes, the pointers to
/// the vertices, the triangles and the submeshes; each pointer has the
/// header of its table in the eight bytes before it and the records of
/// the table behind it.
#[verifier::rlimit(50)]
pub proof fn lemma_tables_at_offsets(data: Seq<u8>)
    requires
        spec_decode(data) is Ok,
    ensures
        ({
            let d = spec_decode(data)->Ok_0;
            let vertex_ptr = le_u32(data.skip(d.meta + crate::vertex::VERTEX_META));
            let submesh_ptr = le_u32(data.skip(d.meta + SUBMESH_META));
            let records = spec_submesh_table(CursorView { consumed: 0, rest: data }, d.meta)->Ok_0;
            &&& d.meta == le_u32(data.skip(META_OFFSET as int))
            &&& d.vertex.count == le_u32(data.skip(vertex_ptr - 8))
            &&& d.vertex.size == le_u32(data.skip(vertex_ptr - 4))
            &&& d.vertex.bytes == data.subrange(
                vertex_ptr as int,
                vertex_ptr + d.vertex.count * d.vertex.size,
            )
            &&& d.triangles.offset == le_u32(data.skip(d.meta + TRIANGLES_META))
            &&& d.triangles.index_count == le_u32(data.skip(d.triangles.offset - 8))
            &&& forall|i: int|
                0 <= i < d.triangles.triangles.len() ==> #[trigger] d.triangles.triangles[i]
                    == triangle_at(data, d.triangles.offset + 6 * i)
            &&& d.submeshes == stable_sort_by_mesh(records)
            &&& records.len() == le_u32(data.skip(submesh_ptr - 8))
            &&& forall|i: int|
                0 <= i < records.len() ==> #[trigger] records[i] == submesh_at(
                    data,
                    submesh_ptr + SUBMESH_STRIDE * i,
                )
        }),
{
    let start = CursorView { consumed: 0, rest: data };
    assert(data.subrange(0, data.len() as int) =~= data);
    lemma_header_at(data);
    let (meta, c) = spec_header(data)->Ok_0;
    lemma_vertex_block_at(c, data, meta);
    lemma_submesh_table_at(start, data, meta);
    lemma_triangle_table_at(c, data, meta);
}

/// The indices of each triangle, triangle by triangle.
pub open spec fn triangles_view(t: Seq<Triangle>) -> Seq<Seq<u16>> {
    Seq::new(t.len(), |i: int| t[i].indices@)
}

/// The bytes of a model file, kept for the tables that are read on
/// request.
#[derive(Debug)]
pub struct RdmFile {
    start: ByteCursor,
}

impl RdmFile {
    #[verifier::type_invariant]
    spec fn inv(self) -> bool {
        self.start.wf() && self.start@.consumed == 0
    }

    /// The whole file.
    pub closed spec fn bytes(&self) -> Seq<u8> {
        self.start@.rest
    }

    /// Keeps `data` as a file.
    pub fn new(data: Vec<u8>) -> (f: RdmFile)
        ensures
            f.bytes() == data@,
    {
        RdmFile { start: ByteCursor::new(data) }
    }

    /// A fresh cursor at the start of the file.
    pub fn cursor(&self) -> (c: ByteCursor)
        ensures
            c.wf(),
            c@ == (CursorView { consumed: 0, rest: self.bytes() }),
    {
        proof {
            use_type_invariant(self);
        }
        self.start.clone()
    }

    /// Length of the file in bytes.
    pub fn len(&self) -> (n: usize)
        ensures
            n == self.bytes().len(),
    {
        self.start.remaining()
    }
}

/// A decoded model.
#[derive(Debug)]
pub struct RDModell {
    pub file: RdmFile,
    pub mesh_info: Vec<MeshInstance>,
    pub joints: Option<Vec<RDJoint>>,
    pub triangle_indices: Vec<Triangle>,
    pub meta: u32,
    pub vertex: VertexFormat2,
    pub triangles_offset: u32,
    pub triangles_idx_count: u32,
    pub triangles_idx_size: u32,
    pub anim: Option<RDAnim>,
    pub mat: Option<RDMaterial>,
}

/// Translation and rotation (x, y, z, w) of a joint, as bit patterns of
/// single-precision numbers.
#[derive(Clone, Copy, Debug, PartialEq, Eq)]
pub struct JointTransform {
    pub translation: [u32; 3],
    pub rotation: [u32; 4],
}

/// A joint of the skeleton. `transition` and `quaternion` (x, y, z, w) are
/// bit patterns of single-precision numbers; in a decoded model they place
/// the joint in model space.
#[derive(Clone, Debug)]
pub struct RDJoint {
    pub name: String,
    pub nameptr: u32,
    pub transition: [u32; 3],
    pub quaternion: [u32; 4],
    pub parent: u8,
}

/// A joint as the file has it. The four components of the rotation are
/// stored with the opposite sign; here they have their sign back. The
/// translation is as stored.
#[derive(Clone, Debug)]
pub struct JointRecord {
    pub name: String,
    pub nameptr: u32,
    pub translation: [u32; 3],
    pub rotation: [u32; 4],
    pub parent: u8,
}

/// What a `JointRecord` holds.
pub struct JointRecordView {
    pub name: Seq<char>,
    pub nameptr: u32,
    pub translation: Seq<u32>,
    pub rotation: Seq<u32>,
    pub parent: u8,
}

impl View for JointRecord {
    type V = JointRecordView;

    open spec fn view(&self) -> JointRecordView {
        JointRecordView {
            name: self.name@,
            nameptr: self.nameptr,
            translation: self.translation@,
            rotation: self.rotation@,
            parent: self.parent,
        }
    }
}

/// What a `RDJoint` holds.
pub struct JointView {
    pub name: Seq<char>,
    pub nameptr: u32,
    pub transition: Seq<u32>,
    pub quaternion: Seq<u32>,
    pub parent: u8,
}

impl View for RDJoint {
    type V = JointView;

    open spec fn view(&self) -> JointView {
        JointView {
            name: self.name@,
            nameptr: self.nameptr,
            transition: self.transition@,
            quaternion: self.quaternion@,
            parent: self.parent,
        }
    }
}

/// What the records hold, record by record.
pub open spec fn records_view(s: Seq<JointRecord>) -> Seq<JointRecordView> {
    Seq::new(s.len(), |i: int| s[i]@)
}

/// What the joints hold, joint by joint.
pub open spec fn joints_view(s: Seq<RDJoint>) -> Seq<JointView> {
    Seq::new(s.len(), |i: int| s[i]@)
}

/// The joint that a record and a transform make.
pub open spec fn joint_of(record: JointRecordView, transform: JointTransform) -> JointView {
    JointView {
        name: record.name,
        nameptr: record.nameptr,
        transition: transform.translation@,
        quaternion: transform.rotation@,
        parent: record.parent,
    }
}

/// The fixed part of the joint record at the start of `bytes`; the name
/// is left open.
pub open spec fn joint_fields_at(bytes: Seq<u8>, name: Seq<char>) -> JointRecordView {
    JointRecordView {
        name,
        nameptr: le_u32(bytes),
        translation: seq![le_u32(bytes.skip(4)), le_u32(bytes.skip(8)), le_u32(bytes.skip(12))],
        rotation: seq![
            negated(le_u32(bytes.skip(16))),
            negated(le_u32(bytes.skip(20))),
            negated(le_u32(bytes.skip(24))),
            negated(le_u32(bytes.skip(28))),
        ],
        parent: bytes[32],
    }
}

/// The next entry of the name table: a length, the tag, and that many
/// bytes of UTF-8.
pub open spec fn spec_joint_name(c: CursorView) -> Result<(Seq<char>, CursorView), Malformed> {
    match c.read_u32() {
        Err(e) => Err(e),
        Ok((len, c1)) => match c1.read_u32() {
            Err(e) => Err(e),
            Ok((tag, c2)) => if tag != NAME_TAG {
                Err(Malformed::NameTag)
            } else {
                match c2.read_bytes(len as nat) {
                    Err(e) => Err(e),
                    Ok((bytes, c3)) => if !valid_utf8(bytes) {
                        Err(Malformed::NameEncoding)
                    } else {
                        Ok((decode_utf8(bytes), c3))
                    },
                }
            },
        },
    }
}

/// `n` joints, read with one cursor over the name table and one over the
/// records.
pub open spec fn spec_joints(names: CursorView, records: CursorView, n: nat) -> Result<
    Seq<JointRecordView>,
    Malformed,
>
    decreases n,
{
    if n == 0 {
        Ok(Seq::empty())
    } else {
        match spec_joint_name(names) {
            Err(e) => Err(e),
            Ok((name, names1)) => match records.skip(JOINT_STRIDE as nat) {
                Err(e) => Err(e),
                Ok(records1) => match spec_joints(names1, records1, (n - 1) as nat) {
                    Err(e) => Err(e),
                    Ok(rest) => Ok(seq![joint_fields_at(records.rest, name)] + rest),
                },
            },
        }
    }
}

/// `rest` with `done` in front of it.
pub open spec fn after(done: Seq<JointRecordView>, rest: Result<Seq<JointRecordView>, Malformed>)
    -> Result<Seq<JointRecordView>, Malformed> {
    match rest {
        Ok(r) => Ok(done + r),
        Err(e) => Err(e),
    }
}

/// The joint table of a file, or why it has none.
pub open spec fn spec_skin(data: Seq<u8>) -> Result<Seq<JointRecordView>, RdmError> {
    match (CursorView { consumed: 0, rest: data }).skip(SKIN_OFFSET as nat) {
        Err(e) => Err(RdmError::MalformedFormat(e)),
        Ok(c1) => match c1.read_u32() {
            Err(e) => Err(RdmError::MalformedFormat(e)),
            Ok((skin_offset, c2)) => if skin_offset == 0 {
                Err(RdmError::MissingData(Missing::NoSkin))
            } else {
                match spec_skin_table(c2, skin_offset) {
                    Err(e) => Err(RdmError::MalformedFormat(e)),
                    Ok(joints) => Ok(joints),
                }
            },
        },
    }
}

/// The joint table behind the skin block at `skin_offset`.
pub open spec fn spec_skin_table(c: CursorView, skin_offset: u32) -> Result<
    Seq<JointRecordView>,
    Malformed,
> {
    match c.seek_absolute(skin_offset as nat) {
        Err(e) => Err(e),
        Ok(c1) => match c1.read_u32() {
            Err(e) => Err(e),
            Ok((table_ptr, c2)) => match spec_open_table(c2, table_ptr) {
                Err(e) => Err(e),
                Ok((h, records)) => if h.stride != JOINT_STRIDE {
                    Err(Malformed::JointStride)
                } else {
                    match records.read_u32() {
                        Err(e) => Err(e),
                        Ok((name_ptr, c3)) => if name_ptr < crate::format::TABLE_HEADER_SIZE {
                            Err(Malformed::InvalidOffset)
                        } else {
                            match c3.seek_absolute(
                                (name_ptr - crate::format::TABLE_HEADER_SIZE) as nat,
                            ) {
                                Err(e) => Err(e),
                                Ok(names) => spec_joints(names, records, h.count as nat),
                            }
                        },
                    }
                },
            },
        }
    }
}

/// Reads `count` submesh records.
fn read_submesh_records(c: &mut ByteCursor, count: u32) -> (r: Result<Vec<MeshInstance>, Malformed>)
    requires
        old(c).wf(),
    ensures
        final(c).wf(),
        match spec_submesh_records(old(c)@, count) {
            Ok(records) => r is Ok && r->Ok_0@ == records,
            Err(e) => r is Err && r->Err_0 == e,
        },
{
    if (count as u64) * (SUBMESH_STRIDE as u64) > c.remaining() as u64 {
        return Err(Malformed::Truncated);
    }
    let ghost start = c@;
    let mut v: Vec<MeshInstance> = Vec::new();
    let mut i: u32 = 0;
    while i < count
        invariant
            i <= count,
            c.wf(),
            SUBMESH_STRIDE as nat * count as nat <= start.rest.len(),
            c@.rest == start.rest.skip(SUBMESH_STRIDE as int * i as int),
            v@ == Seq::new(i as nat, |k: int| submesh_at(start.rest, SUBMESH_STRIDE as int * k)),
        decreases count - i,
    {
        let ghost before = c@;
        let start_index_location = c.read_u32()?;
        let index_count = c.read_u32()?;
        let mesh = c.read_u32()?;
        c.skip((SUBMESH_STRIDE - 12) as usize)?;
        proof {
            let at = SUBMESH_STRIDE as int * i as int;
            assert(before.rest.skip(4) =~= start.rest.skip(at + 4));
            assert(before.rest.skip(4).skip(4) =~= start.rest.skip(at + 8));
            assert(before.rest.skip(4).skip(4).skip(4).skip(16) =~= start.rest.skip(
                SUBMESH_STRIDE as int * (i + 1) as int,
            ));
        }
        let m = MeshInstance { start_index_location, index_count, mesh };
        v.push(m);
        assert(v@ =~= Seq::new(
            (i + 1) as nat,
            |k: int| submesh_at(start.rest, SUBMESH_STRIDE as int * k),
        ));
        i = i + 1;
    }
    Ok(v)
}

/// Reads the triangles behind a table header that announced `count`
/// indices.
fn read_triangles(c: &mut ByteCursor, count: u32) -> (r: Result<Vec<Triangle>, Malformed>)
    requires
        old(c).wf(),
    ensures
        final(c).wf(),
        match spec_triangles(old(c)@, count) {
            Ok(triangles) => r is Ok && triangles_view(r->Ok_0@) == triangles,
            Err(e) => r is Err && r->Err_0 == e,
        },
{
    let bytes: u64 = (count as u64) * (INDEX_STRIDE as u64);
    if bytes > c.remaining() as u64 {
        return Err(Malformed::Truncated);
    }
    c.truncate_to(bytes as usize);
    let ghost window = c@;
    let n: u32 = count / 3;
    let mut v: Vec<Triangle> = Vec::new();
    let mut i: u32 = 0;
    while i < n
        invariant
            i <= n,
            n == count / 3,
            c.wf(),
            window.rest.len() == INDEX_STRIDE as nat * count as nat,
            c@.rest == window.rest.skip(6 * i as int),
            v@.len() == i,
            triangles_view(v@) == Seq::new(i as nat, |k: int| triangle_at(window.rest, 6 * k)),
        decreases n - i,
    {
        let ghost before = c@;
        let a = c.read_u16()?;
        let b = c.read_u16()?;
        let d = c.read_u16()?;
        proof {
            let at = 6 * i as int;
            assert(before.rest.skip(2) =~= window.rest.skip(at + 2));
            assert(before.rest.skip(2).skip(2) =~= window.rest.skip(at + 4));
            assert(before.rest.skip(2).skip(2).skip(2) =~= window.rest.skip(6 * (i + 1) as int));
        }
        let t = Triangle { indices: [a, b, d] };
        assert(t.indices@ =~= triangle_at(window.rest, 6 * i as int));
        let ghost done = v@;
        v.push(t);
        proof {
            let target = Seq::new((i + 1) as nat, |k: int| triangle_at(window.rest, 6 * k));
            assert forall|k: int| 0 <= k < i + 1 implies triangles_view(v@)[k] == target[k] by {
                if k < i {
                    assert(v@[k] == done[k]);
                    assert(triangles_view(done)[k] == done[k].indices@);
                }
            }
            assert(triangles_view(v@) =~= target);
        }
        i = i + 1;
    }
    Ok(v)
}

/// Reads the meta pointer and moves behind the two words that follow it.
fn read_header(c: &mut ByteCursor) -> (r: Result<u32, Malformed>)
    requires
        old(c).wf(),
        old(c)@.consumed == 0,
    ensures
        final(c).wf(),
        match spec_header(old(c)@.rest) {
            Ok((meta, next)) => r == Ok::<u32, Malformed>(meta) && final(c)@ == next,
            Err(e) => r == Err::<u32, Malformed>(e),
        },
{
    c.skip(META_OFFSET as usize)?;
    let meta = c.read_u32()?;
    let ghost mid = c@;
    let _unused = c.read_u32()?;
    let _skin = c.read_u32()?;
    assert(mid.rest.skip(4).skip(4) =~= mid.rest.skip(8));
    Ok(meta)
}

/// Reads the triangle table that the meta block at `meta` points to.
#[verifier::rlimit(50)]
fn read_triangle_table(c: &mut ByteCursor, meta: u32) -> (r: Result<
    (u32, TableHeader, Vec<Triangle>),
    Malformed,
>)
    requires
        old(c).wf(),
    ensures
        final(c).wf(),
        match spec_triangle_table(old(c)@, meta) {
            Ok(t) => r is Ok && r->Ok_0.0 == t.offset && r->Ok_0.1.count == t.index_count
                && r->Ok_0.1.stride == t.index_size && triangles_view(r->Ok_0.2@) == t.triangles,
            Err(e) => r is Err && r->Err_0 == e,
        },
{
    c.seek_absolute(meta)?;
    c.skip(crate::vertex::VERTEX_META as usize)?;
    let vertex_ptr = c.read_u32()?;
    let triangle_ptr = c.read_u32()?;
    if vertex_ptr < crate::format::TABLE_HEADER_SIZE {
        return Err(Malformed::InvalidOffset);
    }
    c.seek_absolute(vertex_ptr - crate::format::TABLE_HEADER_SIZE)?;
    let h = open_table(c, triangle_ptr)?;
    if h.stride != INDEX_STRIDE {
        return Err(Malformed::IndexStride);
    }
    if h.count % 3 != 0 {
        return Err(Malformed::IndexCount);
    }
    let triangles = read_triangles(c, h.count)?;
    Ok((triangle_ptr, h, triangles))
}

/// Reads the next entry of the name table.
fn read_joint_name(c: &mut ByteCursor) -> (r: Result<String, Malformed>)
    requires
        old(c).wf(),
    ensures
        final(c).wf(),
        match spec_joint_name(old(c)@) {
            Ok((name, next)) => r is Ok && r->Ok_0@ == name && final(c)@ == next,
            Err(e) => r is Err && r->Err_0 == e,
        },
{
    let len = c.read_u32()?;
    let tag = c.read_u32()?;
    if tag != NAME_TAG {
        return Err(Malformed::NameTag);
    }
    let bytes = c.read_bytes(len as usize)?;
    match string_from_utf8(bytes) {
        Some(name) => Ok(name),
        None => Err(Malformed::NameEncoding),
    }
}

/// Reads the fixed part of a joint record and moves to the next record.
#[verifier::rlimit(50)]
fn read_joint_fields(c: &mut ByteCursor, name: String) -> (r: Result<JointRecord, Malformed>)
    requires
        old(c).wf(),
    ensures
        final(c).wf(),
        match old(c)@.skip(JOINT_STRIDE as nat) {
            Ok(next) => r is Ok && r->Ok_0@ == joint_fields_at(old(c)@.rest, name@) && final(c)@
                == next,
            Err(e) => r is Err && r->Err_0 == e,
        },
{
    if c.remaining() < JOINT_STRIDE as usize {
        return Err(Malformed::Truncated);
    }
    let ghost start = c@;
    let nameptr = c.read_u32()?;
    let tx = c.read_f32()?;
    let ty = c.read_f32()?;
    let tz = c.read_f32()?;
    let rx = negate(c.read_f32()?);
    let ry = negate(c.read_f32()?);
    let rz = negate(c.read_f32()?);
    let rw = negate(c.read_f32()?);
    let parent = c.read_u8()?;
    c.skip((JOINT_STRIDE - 33) as usize)?;
    let record = JointRecord {
        name,
        nameptr,
        translation: [tx, ty, tz],
        rotation: [rx, ry, rz, rw],
        parent,
    };
    proof {
        let b = start.rest;
        assert(b.skip(4).skip(4) =~= b.skip(8));
        assert(b.skip(8).skip(4) =~= b.skip(12));
        assert(b.skip(12).skip(4) =~= b.skip(16));
        assert(b.skip(16).skip(4) =~= b.skip(20));
        assert(b.skip(20).skip(4) =~= b.skip(24));
        assert(b.skip(24).skip(4) =~= b.skip(28));
        assert(b.skip(28).skip(4) =~= b.skip(32));
        assert(b.skip(32).skip(1).skip(51) =~= b.skip(84));
        assert(record.translation@ =~= joint_fields_at(b, name@).translation);
        assert(record.rotation@ =~= joint_fields_at(b, name@).rotation);
    }
    Ok(record)
}

/// Reads `n` joints with one cursor over the name table and one over the
/// records.
#[verifier::rlimit(50)]
fn read_joints(names: &mut ByteCursor, records: &mut ByteCursor, n: u32) -> (r: Result<
    Vec<JointRecord>,
    Malformed,
>)
    requires
        old(names).wf(),
        old(records).wf(),
    ensures
        final(names).wf(),
        final(records).wf(),
        match spec_joints(old(names)@, old(records)@, n as nat) {
            Ok(joints) => r is Ok && records_view(r->Ok_0@) == joints,
            Err(e) => r is Err && r->Err_0 == e,
        },
{
    let ghost goal = spec_joints(names@, records@, n as nat);
    let mut out: Vec<JointRecord> = Vec::new();
    let mut i: u32 = 0;
    assert(records_view(out@) + Seq::<JointRecordView>::empty() =~= Seq::<JointRecordView>::empty());
    while i < n
        invariant
            i <= n,
            names.wf(),
            records.wf(),
            goal == spec_joints(old(names)@, old(records)@, n as nat),
            after(records_view(out@), spec_joints(names@, records@, (n - i) as nat)) == goal,
        decreases n - i,
    {
        let ghost done = records_view(out@);
        let ghost names0 = names@;
        let ghost records0 = records@;
        let name = read_joint_name(names)?;
        let record = read_joint_fields(records, name)?;
        let ghost rv = record@;
        out.push(record);
        proof {
            assert(records_view(out@) =~= done.push(rv));
            let rest = spec_joints(names@, records@, (n - i - 1) as nat);
            match rest {
                Ok(tail) => {
                    assert(done + (seq![rv] + tail) =~= done.push(rv) + tail);
                },
                Err(e) => {},
            }
        }
        i = i + 1;
    }
    proof {
        assert(records_view(out@) + Seq::<JointRecordView>::empty() =~= records_view(out@));
    }
    Ok(out)
}

/// Reads the joint table behind the skin block at `skin_offset`.
#[verifier::rlimit(50)]
fn read_skin_table(c: &mut ByteCursor, skin_offset: u32) -> (r: Result<Vec<JointRecord>, Malformed>)
    requires
        old(c).wf(),
    ensures
        final(c).wf(),
        match spec_skin_table(old(c)@, skin_offset) {
            Ok(joints) => r is Ok && records_view(r->Ok_0@) == joints,
            Err(e) => r is Err && r->Err_0 == e,
        },
{
    c.seek_absolute(skin_offset)?;
    let first_skin_offset = c.read_u32()?;
    let h = open_table(c, first_skin_offset)?;
    if h.stride != JOINT_STRIDE {
        return Err(Malformed::JointStride);
    }
    let mut joint_name_buffer = c.clone();
    let name_ptr = joint_name_buffer.read_u32()?;
    if name_ptr < crate::format::TABLE_HEADER_SIZE {
        return Err(Malformed::InvalidOffset);
    }
    joint_name_buffer.seek_absolute(name_ptr - crate::format::TABLE_HEADER_SIZE)?;
    read_joints(&mut joint_name_buffer, c, h.count)
}

/// Makes joints of the records of the file and the transforms that
/// belong to them.
fn assemble_joints(records: &Vec<JointRecord>, transforms: &Vec<JointTransform>) -> (joints: Vec<
    RDJoint,
>)
    requires
        transforms@.len() == records@.len(),
    ensures
        joints_view(joints@) == Seq::new(
            records@.len(),
            |i: int| joint_of(records_view(records@)[i], transforms@[i]),
        ),
{
    let mut joints_vec: Vec<RDJoint> = Vec::new();
    let mut i: usize = 0;
    while i < records.len()
        invariant
            i <= records.len(),
            transforms@.len() == records@.len(),
            joints_vec@.len() == i,
            forall|k: int|
                0 <= k < i ==> (#[trigger] joints_vec@[k])@ == joint_of(
                    records@[k]@,
                    transforms@[k],
                ),
        decreases records.len() - i,
    {
        let record = &records[i];
        let joint = RDJoint {
            name: record.name.clone(),
            nameptr: record.nameptr,
            transition: transforms[i].translation,
            quaternion: transforms[i].rotation,
            parent: record.parent,
        };
        joints_vec.push(joint);
        i = i + 1;
    }
    assert(joints_view(joints_vec@) =~= Seq::new(
        records@.len(),
        |i: int| joint_of(records_view(records@)[i], transforms@[i]),
    ));
    joints_vec
}

impl RDModell {
    /// Tells whether `bytes` starts with the signature of a model file.
    pub fn check_has_magic_byte(bytes: &[u8]) -> (r: Result<(), RdmError>)
        ensures
            has_magic(bytes@) ==> r is Ok,
            !has_magic(bytes@) ==> r == Err::<(), RdmError>(
                RdmError::MalformedFormat(Malformed::Magic),
            ),
    {
        if bytes.len() >= 5 && bytes[0] == 0x52 && bytes[1] == 0x44 && bytes[2] == 0x4D && bytes[3]
            == 0x01 && bytes[4] == 0x14 {
            Ok(())
        } else {
            Err(RdmError::MalformedFormat(Malformed::Magic))
        }
    }

    /// Reads the submesh table that the meta block at `meta_deref` points
    /// to and returns its records in ascending order of id.
    pub fn check_multi_mesh(multi_buffer: ByteCursor, meta_deref: u32) -> (r: Result<
        Vec<MeshInstance>,
        RdmError,
    >)
        requires
            multi_buffer.wf(),
        ensures
            match spec_check_multi_mesh(multi_buffer@, meta_deref) {
                Ok(submeshes) => r is Ok && r->Ok_0@ == submeshes,
                Err(e) => r is Err && r->Err_0 == RdmError::MalformedFormat(e),
            },
    {
        let mut c = multi_buffer;
        match Self::read_multi_mesh(&mut c, meta_deref) {
            Ok(v) => Ok(v),
            Err(e) => Err(RdmError::MalformedFormat(e)),
        }
    }

    #[verifier::rlimit(50)]
    fn read_multi_mesh(c: &mut ByteCursor, meta: u32) -> (r: Result<Vec<MeshInstance>, Malformed>)
        requires
            old(c).wf(),
        ensures
            final(c).wf(),
            match spec_check_multi_mesh(old(c)@, meta) {
                Ok(submeshes) => r is Ok && r->Ok_0@ == submeshes,
                Err(e) => r is Err && r->Err_0 == e,
            },
    {
        if meta > u32::MAX - SUBMESH_META {
            return Err(Malformed::InvalidOffset);
        }
        c.seek_absolute(meta + SUBMESH_META)?;
        let first_instance = c.read_u32()?;
        let h = open_table(c, first_instance)?;
        if h.stride != SUBMESH_STRIDE {
            return Err(Malformed::SubmeshStride);
        }
        let v = read_submesh_records(c, h.count)?;
        if v.len() == 0 {
            return Err(Malformed::NoSubmesh);
        }
        Ok(sort_by_mesh(v))
    }

    /// What the model holds of the file it was decoded from.
    pub open spec fn decoded(&self) -> Decoded {
        Decoded {
            meta: self.meta,
            vertex: self.vertex.as_block(),
            submeshes: self.mesh_info@,
            triangles: TriangleTable {
                offset: self.triangles_offset,
                index_count: self.triangles_idx_count,
                index_size: self.triangles_idx_size,
                triangles: triangles_view(self.triangle_indices@),
            },
        }
    }

    /// The bytes of the file that the model was decoded from.
    pub open spec fn file_bytes(&self) -> Seq<u8> {
        self.file.bytes()
    }

    /// The model as decoding leaves it: no skeleton, no animation, no
    /// materials, and vertices whose layout is open.
    pub open spec fn is_fresh(&self) -> bool {
        &&& self.joints is None
        &&& self.anim is None
        &&& self.mat is None
        &&& self.vertex.layout().len() == 0
    }

    /// Tells whether the model has a skeleton.
    pub fn has_skin(&self) -> (b: bool)
        ensures
            b == self.joints is Some,
    {
        self.joints.is_some()
    }

    /// Gives the model an animation.
    pub fn add_anim(&mut self, anim: RDAnim)
        ensures
            *final(self) == (RDModell { anim: Some(anim), ..*old(self) }),
    {
        self.anim = Some(anim);
    }

    /// Reads the joint table of the file that the model was decoded from.
    #[verifier::rlimit(50)]
    pub fn read_skin(&self) -> (r: Result<Vec<JointRecord>, RdmError>)
        ensures
            match spec_skin(self.file_bytes()) {
                Ok(joints) => r is Ok && records_view(r->Ok_0@) == joints,
                Err(e) => r is Err && r->Err_0 == e,
            },
    {
        let mut skin_buffer = self.file.cursor();
        match skin_buffer.skip(SKIN_OFFSET as usize) {
            Ok(()) => {},
            Err(e) => {
                return Err(RdmError::MalformedFormat(e));
            },
        }
        let skin_offset = match skin_buffer.read_u32() {
            Ok(v) => v,
            Err(e) => {
                return Err(RdmError::MalformedFormat(e));
            },
        };
        if skin_offset == 0 {
            return Err(RdmError::MissingData(Missing::NoSkin));
        }
        match read_skin_table(&mut skin_buffer, skin_offset) {
            Ok(v) => Ok(v),
            Err(e) => Err(RdmError::MalformedFormat(e)),
        }
    }

    /// Gives the model the skeleton of its file. The file gives each
    /// joint its name and its parent; `transforms` gives each joint, in
    /// the order of the file, its place in model space.
    #[verifier::rlimit(50)]
    pub fn add_skin(&mut self, transforms: &Vec<JointTransform>) -> (r: Result<(), RdmError>)
        ensures
            *final(self) == (RDModell { joints: final(self).joints, ..*old(self) }),
            match spec_skin(old(self).file_bytes()) {
                Err(e) => r == Err::<(), RdmError>(e) && final(self).joints == old(self).joints,
                Ok(records) => if transforms@.len() != records.len() {
                    r == Err::<(), RdmError>(RdmError::MissingData(Missing::JointTransform))
                        && final(self).joints == old(self).joints
                } else {
                    &&& r is Ok
                    &&& final(self).joints is Some
                    &&& joints_view(final(self).joints->Some_0@) == Seq::new(
                        records.len(),
                        |i: int| joint_of(records[i], transforms@[i]),
                    )
                },
            },
    {
        let records = self.read_skin()?;
        if transforms.len() != records.len() {
            return Err(RdmError::MissingData(Missing::JointTransform));
        }
        self.joints = Some(assemble_joints(&records, transforms));
        Ok(())
    }

    /// Decodes a model file.
    pub fn new(buf: Vec<u8>) -> (r: Result<RDModell, RdmError>)
        ensures
            match spec_decode(buf@) {
                Ok(d) => r is Ok && r->Ok_0.decoded() == d && r->Ok_0.file_bytes() == buf@
                    && r->Ok_0.is_fresh(),
                Err(e) => r is Err && r->Err_0 == RdmError::MalformedFormat(e),
            },
    {
        match Self::decode(buf) {
            Ok(m) => Ok(m),
            Err(e) => Err(RdmError::MalformedFormat(e)),
        }
    }

    #[verifier::rlimit(50)]
    fn decode(buf: Vec<u8>) -> (r: Result<RDModell, Malformed>)
        ensures
            match spec_decode(buf@) {
                Ok(d) => r is Ok && r->Ok_0.decoded() == d && r->Ok_0.file_bytes() == buf@
                    && r->Ok_0.is_fresh(),
                Err(e) => r is Err && r->Err_0 == e,
            },
    {
        if Self::check_has_magic_byte(buf.as_slice()).is_err() {
            return Err(Malformed::Magic);
        }
        let file = RdmFile::new(buf);
        let mut nbuffer = file.cursor();
        let meta = read_header(&mut nbuffer)?;
        let vertex = VertexFormat2::read_format(nbuffer.clone(), meta)?;
        let mut multi_buffer = file.cursor();
        let mesh_info = Self::read_multi_mesh(&mut multi_buffer, meta)?;
        let (triangles_offset, h, triangle_indices) = read_triangle_table(&mut nbuffer, meta)?;
        Ok(
            RDModell {
                file,
                mesh_info,
                joints: None,
                triangle_indices,
                meta,
                vertex,
                triangles_offset,
                triangles_idx_count: h.count,
                triangles_idx_size: h.stride,
                anim: None,
                mat: None,
            },
        )
    }
}

} // verus!
