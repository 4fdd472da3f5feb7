//! Vertex attributes: positions, texture coordinates, normals and
//! tangents, each as a blob of its own.

use crate::bits::{MINUS_ONE, ONE};
use crate::blob::{new_blob, pack_vectors, padded, put_words, vectors_le, words_le, MAX_BLOB};
use crate::buf::{bytes_mut_put_u32_le, bytes_mut_to_vec, bytes_mut_view, u32_le_bytes};
use crate::error::{Malformed, Missing, RdmError};
use crate::gltf_export::RDGltfBuilder;
use crate::gltf_json::{
    attr_insert,
    views,
    Accessor,
    AccessorData,
    BufferData,
    BufferView,
    ComponentType,
    Semantic,
    Target,
    Type,
};
use crate::text::buffer_file_name;
use crate::vertex::{component_offset, G4b, UniqueIdentifier, VertexAttribute, VertexFormat2};
use vstd::prelude::*;

verus! {

/// One attribute of the vertices, laid out as a blob of its own.
pub struct AttributeBlob {
    pub bytes: Seq<u8>,
    pub count: u32,
    pub type_: Type,
    pub semantic: Semantic,
    pub target: Option<Target>,
    pub min: Option<Seq<u32>>,
    pub max: Option<Seq<u32>>,
}

/// What adding an attribute does to the builder: the blob becomes the
/// next buffer, one view covers it all, one accessor reads the view, and
/// the attribute map names that accessor.
pub open spec fn attribute_added(old: RDGltfBuilder, new: RDGltfBuilder, a: AttributeBlob) -> bool {
    let buffer = old.buffers@.len();
    let view = old.buffer_views@.len();
    let accessor = old.accessors@.len();
    let byte_length = padded(a.bytes).len();
    &&& new.obj.root == old.obj.root
    &&& new.obj.blobs() == old.obj.blobs().push(padded(a.bytes))
    &&& views(new.buffers@) == views(old.buffers@).push(
        BufferData { byte_length: byte_length as u32, uri: buffer_file_name(buffer) },
    )
    &&& new.buffer_views@ == old.buffer_views@.push(
        BufferView {
            buffer: buffer as u32,
            byte_length: byte_length as u32,
            byte_offset: None,
            target: a.target,
        },
    )
    &&& views(new.accessors@) == views(old.accessors@).push(
        AccessorData {
            buffer_view: view as u32,
            byte_offset: 0,
            count: a.count,
            component_type: ComponentType::F32,
            type_: a.type_,
            min: a.min,
            max: a.max,
        },
    )
    &&& new.attr_map@ == attr_insert(old.attr_map@, a.semantic, accessor as u32)
    &&& new == (RDGltfBuilder {
        buffers: new.buffers,
        buffer_views: new.buffer_views,
        accessors: new.accessors,
        attr_map: new.attr_map,
        obj: new.obj,
        ..old
    })
}

/// What becomes of an attribute that the caller supplies for each
/// vertex: whether it is laid out, left out, or refused.
pub open spec fn attribute_outcome(
    b: RDGltfBuilder,
    kind: UniqueIdentifier,
    supplied: nat,
    bytes_each: nat,
) -> Result<bool, RdmError> {
    if component_offset(b.rdm.vertex.layout(), kind, 0) is None {
        Ok(false)
    } else if supplied != b.rdm.vertex.spec_len() {
        Err(RdmError::MalformedFormat(Malformed::AttributeCount))
    } else if !(bytes_each * supplied <= MAX_BLOB && b.has_room(1, 1, 1)) {
        Err(RdmError::MalformedFormat(Malformed::TooLarge))
    } else {
        Ok(true)
    }
}

/// The fourth number of a tangent: 1 where the fourth byte of the stored
/// tangent is 1, and -1 elsewhere.
pub open spec fn handedness(mark: u8) -> u32 {
    if mark == 1 {
        ONE
    } else {
        MINUS_ONE
    }
}

/// The tangents as the blob has them: for each vertex the three numbers
/// supplied and the handedness that the model's fourth byte gives.
pub open spec fn tangents_le(xyz: Seq<[u32; 3]>, vertex: VertexFormat2) -> Seq<u8>
    decreases xyz.len(),
{
    if xyz.len() == 0 {
        Seq::empty()
    } else {
        tangents_le(xyz.drop_last(), vertex) + words_le(xyz.last()@) + u32_le_bytes(
            handedness(vertex.component_byte(UniqueIdentifier::G4b, 0, xyz.len() - 1, 3)),
        )
    }
}

proof fn lemma_tangents_le_len(xyz: Seq<[u32; 3]>, vertex: VertexFormat2)
    ensures
        tangents_le(xyz, vertex).len() == 16 * xyz.len(),
    decreases xyz.len(),
{
    if xyz.len() > 0 {
        lemma_tangents_le_len(xyz.drop_last(), vertex);
        crate::blob::lemma_words_le_len(xyz.last()@);
    }
}

/// The three numbers of a bound as a list.
fn bound_of(b: [u32; 3]) -> (v: Vec<u32>)
    ensures
        v@ == b@,
{
    let mut v: Vec<u32> = Vec::new();
    v.push(b[0]);
    v.push(b[1]);
    v.push(b[2]);
    assert(v@ =~= b@);
    v
}

impl RDGltfBuilder {
    /// Lays out one attribute: the blob becomes the next buffer, with one
    /// view over all of it and one accessor of single-precision numbers.
    #[verifier::rlimit(50)]
    fn put_attribute(
        &mut self,
        blob: Vec<u8>,
        count: u32,
        type_: Type,
        semantic: Semantic,
        target: Option<Target>,
        min: Option<Vec<u32>>,
        max: Option<Vec<u32>>,
    ) -> (r: Result<(), RdmError>)
        requires
            old(self).wf(),
            blob@.len() <= MAX_BLOB,
            old(self).has_room(1, 1, 1),
        ensures
            final(self).wf(),
            r is Ok,
            attribute_added(
                *old(self),
                *final(self),
                AttributeBlob {
                    bytes: blob@,
                    count,
                    type_,
                    semantic,
                    target,
                    min: crate::gltf_json::bound_view(min),
                    max: crate::gltf_json::bound_view(max),
                },
            ),
    {
        let buffer_p = self.add_buffer(blob, count);
        let buffer_views_idx = self.add_view(
            BufferView {
                buffer: buffer_p.idx,
                byte_length: buffer_p.len,
                byte_offset: None,
                target,
            },
        );
        let accessors_idx = self.add_accessor(
            Accessor {
                buffer_view: buffer_views_idx,
                byte_offset: 0,
                count,
                component_type: ComponentType::F32,
                type_,
                min,
                max,
            },
        );
        self.set_attribute(semantic, accessors_idx);
        Ok(())
    }

    /// Lays out the positions of the vertices, which every model has to
    /// have. `positions` holds, for each vertex, the three coordinates;
    /// `min` and `max` bound them.
    #[verifier::rlimit(50)]
    pub fn put_vertex(&mut self, positions: &Vec<[u32; 3]>, min: [u32; 3], max: [u32; 3]) -> (r:
        Result<(), RdmError>)
        requires
            old(self).wf(),
        ensures
            final(self).wf(),
            match attribute_outcome(*old(self), UniqueIdentifier::P4h, positions@.len(), 12) {
                Ok(true) => r is Ok && attribute_added(
                    *old(self),
                    *final(self),
                    AttributeBlob {
                        bytes: vectors_le(positions@),
                        count: positions@.len() as u32,
                        type_: Type::Vec3,
                        semantic: Semantic::Positions,
                        target: Some(Target::ArrayBuffer),
                        min: Some(min@),
                        max: Some(max@),
                    },
                ),
                Ok(false) => r == Err::<(), RdmError>(RdmError::MissingData(Missing::Positions))
                    && *final(self) == *old(self),
                Err(e) => r == Err::<(), RdmError>(e) && *final(self) == *old(self),
            },
    {
        if !self.attribute_check(UniqueIdentifier::P4h, positions.len(), 12)? {
            return Err(RdmError::MissingData(Missing::Positions));
        }
        assert(4 * 3 * positions@.len() == 12 * positions@.len());
        let blob = pack_vectors(positions)?;
        proof {
            crate::blob::lemma_vectors_le_len(positions@);
        }
        self.put_attribute(
            blob,
            positions.len() as u32,
            Type::Vec3,
            Semantic::Positions,
            Some(Target::ArrayBuffer),
            Some(bound_of(min)),
            Some(bound_of(max)),
        )
    }

    /// Lays out the texture coordinates, where the model has any.
    /// `texcoords` holds the two coordinates of each vertex.
    #[verifier::rlimit(50)]
    pub fn put_tex(&mut self, texcoords: &Vec<[u32; 2]>) -> (r: Result<(), RdmError>)
        requires
            old(self).wf(),
        ensures
            final(self).wf(),
            match attribute_outcome(*old(self), UniqueIdentifier::T2h, texcoords@.len(), 8) {
                Ok(true) => r is Ok && attribute_added(
                    *old(self),
                    *final(self),
                    AttributeBlob {
                        bytes: vectors_le(texcoords@),
                        count: texcoords@.len() as u32,
                        type_: Type::Vec2,
                        semantic: Semantic::TexCoords(0),
                        target: None,
                        min: None,
                        max: None,
                    },
                ),
                Ok(false) => r is Ok && *final(self) == *old(self),
                Err(e) => r == Err::<(), RdmError>(e) && *final(self) == *old(self),
            },
    {
        if !self.attribute_check(UniqueIdentifier::T2h, texcoords.len(), 8)? {
            return Ok(());
        }
        assert(4 * 2 * texcoords@.len() == 8 * texcoords@.len());
        let blob = pack_vectors(texcoords)?;
        proof {
            crate::blob::lemma_vectors_le_len(texcoords@);
        }
        self.put_attribute(
            blob,
            texcoords.len() as u32,
            Type::Vec2,
            Semantic::TexCoords(0),
            None,
            None,
            None,
        )
    }

    /// Lays out the normals, where the model has any. `normals` holds
    /// the unit normal of each vertex.
    #[verifier::rlimit(50)]
    pub fn put_normal(&mut self, normals: &Vec<[u32; 3]>) -> (r: Result<(), RdmError>)
        requires
            old(self).wf(),
        ensures
            final(self).wf(),
            match attribute_outcome(*old(self), UniqueIdentifier::N4b, normals@.len(), 12) {
                Ok(true) => r is Ok && attribute_added(
                    *old(self),
                    *final(self),
                    AttributeBlob {
                        bytes: vectors_le(normals@),
                        count: normals@.len() as u32,
                        type_: Type::Vec3,
                        semantic: Semantic::Normals,
                        target: None,
                        min: None,
                        max: None,
                    },
                ),
                Ok(false) => r is Ok && *final(self) == *old(self),
                Err(e) => r == Err::<(), RdmError>(e) && *final(self) == *old(self),
            },
    {
        if !self.attribute_check(UniqueIdentifier::N4b, normals.len(), 12)? {
            return Ok(());
        }
        assert(4 * 3 * normals@.len() == 12 * normals@.len());
        let blob = pack_vectors(normals)?;
        proof {
            crate::blob::lemma_vectors_le_len(normals@);
        }
        self.put_attribute(
            blob,
            normals.len() as u32,
            Type::Vec3,
            Semantic::Normals,
            None,
            None,
            None,
        )
    }

    /// Lays out the tangents, where the model has any. `tangents` holds
    /// the unit tangent of each vertex; its handedness comes from the
    /// fourth byte of the tangent that the model stores.
    #[verifier::rlimit(50)]
    pub fn put_tangent(&mut self, tangents: &Vec<[u32; 3]>) -> (r: Result<(), RdmError>)
        requires
            old(self).wf(),
        ensures
            final(self).wf(),
            match attribute_outcome(*old(self), UniqueIdentifier::G4b, tangents@.len(), 16) {
                Ok(true) => r is Ok && attribute_added(
                    *old(self),
                    *final(self),
                    AttributeBlob {
                        bytes: tangents_le(tangents@, old(self).rdm.vertex),
                        count: tangents@.len() as u32,
                        type_: Type::Vec4,
                        semantic: Semantic::Tangents,
                        target: None,
                        min: None,
                        max: None,
                    },
                ),
                Ok(false) => r is Ok && *final(self) == *old(self),
                Err(e) => r == Err::<(), RdmError>(e) && *final(self) == *old(self),
            },
    {
        if !self.attribute_check(UniqueIdentifier::G4b, tangents.len(), 16)? {
            return Ok(());
        }
        let stored: Vec<G4b> = match self.rdm.vertex.iter::<G4b>(0) {
            Some(v) => v,
            None => {
                return Ok(());
            },
        };
        let n = tangents.len();
        let mut buff = new_blob(16 * n);
        let mut i: usize = 0;
        while i < n
            invariant
                i <= n,
                n == tangents@.len(),
                n == stored@.len(),
                n == self.rdm.vertex.spec_len(),
                16 * n <= MAX_BLOB,
                component_offset(self.rdm.vertex.layout(), UniqueIdentifier::G4b, 0) is Some,
                forall|v: int|
                    0 <= v < n ==> (#[trigger] stored@[v]).decodes(
                        self.rdm.vertex.component_bytes(
                            v,
                            component_offset(
                                self.rdm.vertex.layout(),
                                UniqueIdentifier::G4b,
                                0,
                            )->Some_0,
                            4,
                        ),
                    ),
                bytes_mut_view(buff) == tangents_le(tangents@.take(i as int), self.rdm.vertex),
            decreases n - i,
        {
            proof {
                lemma_tangents_le_len(tangents@.take(i as int), self.rdm.vertex);
                assert(tangents@.take(i as int + 1).drop_last() =~= tangents@.take(i as int));
                crate::blob::lemma_words_le_len(tangents@[i as int]@);
            }
            put_words(&mut buff, &tangents[i]);
            let g = stored[i];
            assert(g.decodes(
                self.rdm.vertex.component_bytes(
                    i as int,
                    component_offset(self.rdm.vertex.layout(), UniqueIdentifier::G4b, 0)->Some_0,
                    4,
                ),
            ));
            let w = if g.tangent[3] == 1 {
                ONE
            } else {
                MINUS_ONE
            };
            bytes_mut_put_u32_le(&mut buff, w);
            assert(bytes_mut_view(buff) =~= tangents_le(
                tangents@.take(i as int + 1),
                self.rdm.vertex,
            ));
            i = i + 1;
        }
        proof {
            assert(tangents@.take(n as int) =~= tangents@);
            lemma_tangents_le_len(tangents@, self.rdm.vertex);
        }
        let blob = bytes_mut_to_vec(&buff);
        self.put_attribute(blob, n as u32, Type::Vec4, Semantic::Tangents, None, None, None)
    }

    /// Tells whether the vertices of the model have a component of the
    /// given kind.
    fn has_component(&self, kind: UniqueIdentifier) -> (b: bool)
        ensures
            b == component_offset(self.rdm.vertex.layout(), kind, 0) is Some,
    {
        self.rdm.vertex.find(kind).len() > 0
    }

    /// Decides what becomes of an attribute that the caller supplies.
    fn attribute_check(&self, kind: UniqueIdentifier, supplied: usize, bytes_each: usize) -> (r:
        Result<bool, RdmError>)
        requires
            bytes_each <= 16,
        ensures
            r == attribute_outcome(*self, kind, supplied as nat, bytes_each as nat),
    {
        if !self.has_component(kind) {
            return Ok(false);
        }
        if supplied as u64 != self.rdm.vertex.len() as u64 {
            return Err(RdmError::MalformedFormat(Malformed::AttributeCount));
        }
        assert(bytes_each * supplied <= 16 * 0xFFFF_FFFF) by (nonlinear_arith)
            requires
                bytes_each <= 16,
                supplied <= 0xFFFF_FFFF,
        ;
        let total: u64 = (bytes_each as u64) * (supplied as u64);
        if !(total <= MAX_BLOB as u64 && self.check_room(1, 1, 1)) {
            return Err(RdmError::MalformedFormat(Malformed::TooLarge));
        }
        Ok(true)
    }
}

} // verus!
