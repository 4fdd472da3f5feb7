//! Triangle indices and the ranges of the submeshes.

use crate::blob::{new_blob, padded, MAX_BLOB};
use crate::buf::{bytes_mut_put_u16_le, bytes_mut_to_vec, bytes_mut_view, u16_le_bytes};
use crate::error::{Malformed, RdmError};
use crate::gltf_export::RDGltfBuilder;
use crate::gltf_json::{
    views,
    Accessor,
    AccessorData,
    BufferData,
    BufferView,
    ComponentType,
    Target,
    Type,
};
use crate::model::Triangle;
use crate::submesh::{index_count_sum, MeshInstance};
use crate::text::buffer_file_name;
use vstd::prelude::*;

verus! {

/// The indices of the triangles as the blob has them: two bytes each,
/// little-endian, triangle after triangle.
pub open spec fn triangles_le(triangles: Seq<Triangle>) -> Seq<u8>
    decreases triangles.len(),
{
    if triangles.len() == 0 {
        Seq::empty()
    } else {
        triangles_le(triangles.drop_last()) + u16_le_bytes(triangles.last().indices[0])
            + u16_le_bytes(triangles.last().indices[1]) + u16_le_bytes(
            triangles.last().indices[2],
        )
    }
}

proof fn lemma_triangles_le_len(triangles: Seq<Triangle>)
    ensures
        triangles_le(triangles).len() == 6 * triangles.len(),
    decreases triangles.len(),
{
    if triangles.len() > 0 {
        lemma_triangles_le_len(triangles.drop_last());
    }
}

/// The start of every submesh, counted in bytes, fits in 32 bits.
pub open spec fn starts_fit(submeshes: Seq<MeshInstance>) -> bool {
    forall|i: int| 0 <= i < submeshes.len() ==> 2 * (#[trigger] submeshes[i]).start_index_location
        <= u32::MAX
}

/// The accessor that reads the indices of a submesh from the view over
/// all indices.
pub open spec fn index_accessor(view: u32, submesh: MeshInstance) -> AccessorData {
    AccessorData {
        buffer_view: view,
        byte_offset: (2 * submesh.start_index_location) as u32,
        count: submesh.index_count,
        component_type: ComponentType::U16,
        type_: Type::Scalar,
        min: None,
        max: None,
    }
}

/// Whether the triangle indices can be laid out, and why not.
pub open spec fn put_idx_outcome(b: RDGltfBuilder) -> Result<(), RdmError> {
    if !(6 * b.rdm.triangle_indices@.len() <= MAX_BLOB && b.has_room(
        1,
        1,
        b.rdm.mesh_info@.len(),
    ) && starts_fit(b.rdm.mesh_info@)) {
        Err(RdmError::MalformedFormat(Malformed::TooLarge))
    } else if index_count_sum(b.rdm.mesh_info@) != 3 * b.rdm.triangle_indices@.len() {
        Err(RdmError::MalformedFormat(Malformed::IndexCountSum))
    } else {
        Ok(())
    }
}

/// What laying out the triangle indices does to the builder: all indices
/// become the next buffer, one view covers it, and each submesh gets an
/// accessor for its range.
pub open spec fn indices_added(old: RDGltfBuilder, new: RDGltfBuilder) -> bool {
    let buffer = old.buffers@.len();
    let view = old.buffer_views@.len();
    let accessor = old.accessors@.len();
    let bytes = padded(triangles_le(old.rdm.triangle_indices@));
    &&& new.obj.root == old.obj.root
    &&& new.obj.blobs() == old.obj.blobs().push(bytes)
    &&& views(new.buffers@) == views(old.buffers@).push(
        BufferData { byte_length: bytes.len() as u32, uri: buffer_file_name(buffer) },
    )
    &&& new.buffer_views@ == old.buffer_views@.push(
        BufferView {
            buffer: buffer as u32,
            byte_length: bytes.len() as u32,
            byte_offset: None,
            target: Some(Target::ElementArrayBuffer),
        },
    )
    &&& views(new.accessors@) == views(old.accessors@) + Seq::new(
        old.rdm.mesh_info@.len(),
        |i: int| index_accessor(view as u32, old.rdm.mesh_info@[i]),
    )
    &&& new.idx is Some
    &&& new.idx->Some_0@ == Seq::new(old.rdm.mesh_info@.len(), |i: int| (accessor + i) as u32)
    &&& new == (RDGltfBuilder {
        buffers: new.buffers,
        buffer_views: new.buffer_views,
        accessors: new.accessors,
        idx: new.idx,
        obj: new.obj,
        ..old
    })
}

/// Serializes triangles: the little-endian bytes of each index.
fn pack_triangles(triangles: &Vec<Triangle>) -> (r: Vec<u8>)
    requires
        6 * triangles@.len() <= MAX_BLOB,
    ensures
        r@ == triangles_le(triangles@),
{
    let n = triangles.len();
    let mut buf = new_blob(6 * n);
    let mut i: usize = 0;
    while i < n
        invariant
            i <= n,
            n == triangles@.len(),
            6 * n <= MAX_BLOB,
            bytes_mut_view(buf) == triangles_le(triangles@.take(i as int)),
        decreases n - i,
    {
        proof {
            lemma_triangles_le_len(triangles@.take(i as int));
            assert(triangles@.take(i as int + 1).drop_last() =~= triangles@.take(i as int));
        }
        let t = triangles[i];
        bytes_mut_put_u16_le(&mut buf, t.indices[0]);
        bytes_mut_put_u16_le(&mut buf, t.indices[1]);
        bytes_mut_put_u16_le(&mut buf, t.indices[2]);
        assert(bytes_mut_view(buf) =~= triangles_le(triangles@.take(i as int + 1)));
        i = i + 1;
    }
    assert(triangles@.take(n as int) =~= triangles@);
    bytes_mut_to_vec(&buf)
}

/// Adds up the index counts, and tells whether the start of every
/// submesh, counted in bytes, fits in 32 bits.
fn survey_submeshes(submeshes: &Vec<MeshInstance>) -> (r: (u64, bool))
    requires
        submeshes@.len() <= u32::MAX,
    ensures
        r.0 == index_count_sum(submeshes@),
        r.1 == starts_fit(submeshes@),
{
    let mut sum: u64 = 0;
    let mut fit = true;
    let mut i: usize = 0;
    while i < submeshes.len()
        invariant
            i <= submeshes.len(),
            submeshes@.len() <= u32::MAX,
            sum == index_count_sum(submeshes@.take(i as int)),
            sum <= i * 0xFFFF_FFFF,
            fit == starts_fit(submeshes@.take(i as int)),
        decreases submeshes.len() - i,
    {
        proof {
            assert(submeshes@.take(i as int + 1).drop_last() =~= submeshes@.take(i as int));
            assert((i + 1) * 0xFFFF_FFFF <= 0xFFFF_FFFF * 0xFFFF_FFFF) by (nonlinear_arith)
                requires
                    i + 1 <= 0xFFFF_FFFF,
            ;
            assert(i * 0xFFFF_FFFF + 0xFFFF_FFFF == (i + 1) * 0xFFFF_FFFF) by (nonlinear_arith);
        }
        let m = submeshes[i];
        sum = sum + m.index_count as u64;
        let ghost before = fit;
        if m.start_index_location > u32::MAX / 2 {
            fit = false;
        }
        proof {
            let now = submeshes@.take(i as int + 1);
            let prev = submeshes@.take(i as int);
            if fit {
                assert forall|k: int| 0 <= k < now.len() implies 2 * (
                #[trigger] now[k]).start_index_location <= u32::MAX by {
                    if k < i {
                        assert(prev[k] == now[k]);
                    }
                }
            } else if before {
                assert(now[i as int] == m);
            } else {
                let k = choose|k: int|
                    0 <= k < prev.len() && !(2 * (#[trigger] prev[k]).start_index_location
                        <= u32::MAX);
                assert(now[k] == prev[k]);
            }
        }
        i = i + 1;
    }
    assert(submeshes@.take(submeshes.len() as int) =~= submeshes@);
    (sum, fit)
}

/// For a decoded model whose triangle indices can be laid out, the index
/// counts of the submeshes add up to the number of indices that the file
/// announces, and that is three for each triangle.
pub proof fn lemma_index_counts_add_up(data: Seq<u8>, b: RDGltfBuilder)
    requires
        crate::model::spec_decode(data) is Ok,
        b.rdm.decoded() == crate::model::spec_decode(data)->Ok_0,
        put_idx_outcome(b) is Ok,
    ensures
        index_count_sum(b.rdm.mesh_info@) == b.rdm.triangles_idx_count,
        b.rdm.triangles_idx_count == 3 * b.rdm.triangle_indices@.len(),
{
    crate::model::lemma_index_count(data);
    assert(crate::model::triangles_view(b.rdm.triangle_indices@).len()
        == b.rdm.triangle_indices@.len());
}

impl RDGltfBuilder {
    /// Lays out the triangle indices: one buffer and one view for all of
    /// them, and one accessor for the range of each submesh. The index
    /// counts of the submeshes have to add up to the number of indices.
    #[verifier::rlimit(50)]
    pub fn put_idx(&mut self) -> (r: Result<(), RdmError>)
        requires
            old(self).wf(),
        ensures
            final(self).wf(),
            match put_idx_outcome(*old(self)) {
                Ok(()) => r is Ok && indices_added(*old(self), *final(self)),
                Err(e) => r == Err::<(), RdmError>(e) && *final(self) == *old(self),
            },
    {
        let triangles = self.rdm.triangle_indices.len();
        let submeshes = self.rdm.mesh_info.len();
        if triangles > MAX_BLOB / 6 || submeshes > u32::MAX as usize || !self.check_room(
            1,
            1,
            submeshes as u32,
        ) {
            return Err(RdmError::MalformedFormat(Malformed::TooLarge));
        }
        let (sum, fit) = survey_submeshes(&self.rdm.mesh_info);
        if !fit {
            return Err(RdmError::MalformedFormat(Malformed::TooLarge));
        }
        if sum != 3 * (triangles as u64) {
            return Err(RdmError::MalformedFormat(Malformed::IndexCountSum));
        }
        let blob = pack_triangles(&self.rdm.triangle_indices);
        proof {
            lemma_triangles_le_len(self.rdm.triangle_indices@);
        }
        let triangle_idx_p = self.add_buffer(blob, triangles as u32);
        let buffer_idx_view_idx = self.add_view(
            BufferView {
                buffer: triangle_idx_p.idx,
                byte_length: triangle_idx_p.len,
                byte_offset: None,
                target: Some(Target::ElementArrayBuffer),
            },
        );
        let ghost mid = *self;
        let mut accessor_idx_meshes: Vec<u32> = Vec::new();
        let mut i: usize = 0;
        assert(views(self.accessors@) =~= views(mid.accessors@) + Seq::new(
            0,
            |k: int| index_accessor(buffer_idx_view_idx, self.rdm.mesh_info@[k]),
        ));
        while i < submeshes
            invariant
                i <= submeshes,
                self.wf(),
                submeshes == mid.rdm.mesh_info@.len(),
                starts_fit(mid.rdm.mesh_info@),
                mid.accessors@.len() + submeshes <= u32::MAX,
                self.accessors@.len() == mid.accessors@.len() + i,
                buffer_idx_view_idx < mid.buffer_views@.len(),
                views(self.accessors@) == views(mid.accessors@) + Seq::new(
                    i as nat,
                    |k: int| index_accessor(buffer_idx_view_idx, mid.rdm.mesh_info@[k]),
                ),
                accessor_idx_meshes@ == Seq::new(
                    i as nat,
                    |k: int| (mid.accessors@.len() + k) as u32,
                ),
                *self == (RDGltfBuilder { accessors: self.accessors, ..mid }),
            decreases submeshes - i,
        {
            let submesh = self.rdm.mesh_info[i];
            let ghost before = views(self.accessors@);
            let accessors_idx = self.add_accessor(
                Accessor {
                    buffer_view: buffer_idx_view_idx,
                    byte_offset: submesh.start_index_location * 2,
                    count: submesh.index_count,
                    component_type: ComponentType::U16,
                    type_: Type::Scalar,
                    min: None,
                    max: None,
                },
            );
            accessor_idx_meshes.push(accessors_idx);
            proof {
                assert(views(self.accessors@) =~= views(mid.accessors@) + Seq::new(
                    (i + 1) as nat,
                    |k: int| index_accessor(buffer_idx_view_idx, mid.rdm.mesh_info@[k]),
                ));
                assert(accessor_idx_meshes@ =~= Seq::new(
                    (i + 1) as nat,
                    |k: int| (mid.accessors@.len() + k) as u32,
                ));
            }
            i = i + 1;
        }
        self.idx = Some(accessor_idx_meshes);
        Ok(())
    }
}

} // verus!
