//! Joint indices and weights of the vertices.

use crate::blob::{new_blob, put_words, vectors_le, MAX_BLOB};
use crate::buf::{
    bytes_mut_put_slice,
    bytes_mut_put_u32_le,
    bytes_mut_put_u8,
    bytes_mut_to_vec,
    bytes_mut_view,
    u32_le_bytes,
};
use crate::error::{Malformed, RdmError};
use crate::gltf_export::RDGltfBuilder;
use crate::gltf_json::{
    attr_insert,
    views,
    Accessor,
    AccessorData,
    BufferData,
    BufferView,
    ComponentType,
    Semantic,
    Type,
};
use crate::text::buffer_file_name;
use crate::vertex::{
    component_offset,
    offsets_of,
    I4b,
    UniqueIdentifier,
    VertexAttribute,
    VertexFormat2,
    W4b,
};
use vstd::prelude::*;

verus! {

/// The weight that the model has for slot `k` of vertex `v` in the given
/// set of joints. Where the model has joint indices without weights, the
/// first slot has all the weight.
pub open spec fn stored_weight(vertex: VertexFormat2, set: nat, v: int, k: int) -> u8 {
    if component_offset(vertex.layout(), UniqueIdentifier::W4b, set) is Some {
        vertex.component_byte(UniqueIdentifier::W4b, set, v, k)
    } else if k == 0 {
        255
    } else {
        0
    }
}

/// The joint index that the document has for slot `k` of vertex `v`: the
/// one of the model, but 0 for a slot without weight when the weights are
/// normalised.
pub open spec fn emitted_joint(vertex: VertexFormat2, set: nat, normalise: bool, v: int, k: int)
    -> u8 {
    if normalise && stored_weight(vertex, set, v, k) == 0 {
        0
    } else {
        vertex.component_byte(UniqueIdentifier::I4b, set, v, k)
    }
}

/// The joint indices of the first `n` vertices as the blob has them, four
/// bytes for each vertex.
pub open spec fn joints_bytes(vertex: VertexFormat2, set: nat, normalise: bool, n: nat) -> Seq<u8> {
    Seq::new(4 * n, |i: int| emitted_joint(vertex, set, normalise, i / 4, i % 4))
}

/// The blob of one set of joints: the four weights of every vertex, then
/// the four joint indices of every vertex, then four zero bytes.
pub open spec fn weight_blob(
    weights: Seq<[u32; 4]>,
    vertex: VertexFormat2,
    set: nat,
    normalise: bool,
) -> Seq<u8> {
    vectors_le(weights) + joints_bytes(vertex, set, normalise, vertex.spec_len() as nat)
        + u32_le_bytes(0)
}

/// With normalised weights, a slot that has no weight in the model names
/// joint 0 in the blob.
pub proof fn lemma_zero_weight_names_joint_zero(
    weights: Seq<[u32; 4]>,
    vertex: VertexFormat2,
    set: nat,
    v: int,
    k: int,
)
    requires
        weights.len() == vertex.spec_len(),
        0 <= v < vertex.spec_len(),
        0 <= k < 4,
        stored_weight(vertex, set, v, k) == 0,
    ensures
        weight_blob(weights, vertex, set, true)[16 * weights.len() + 4 * v + k] == 0,
{
    crate::blob::lemma_vectors_le_len(weights);
}

/// The view over the joint indices (even `k`) or over the weights (odd
/// `k`) of set `k / 2`, whose blob is buffer `first + k / 2`.
pub open spec fn weight_view(first: nat, vertices: nat, k: int) -> BufferView {
    if k % 2 == 0 {
        BufferView {
            buffer: (first + k / 2) as u32,
            byte_length: (4 * vertices) as u32,
            byte_offset: Some((16 * vertices) as u32),
            target: None,
        }
    } else {
        BufferView {
            buffer: (first + k / 2) as u32,
            byte_length: (16 * vertices) as u32,
            byte_offset: None,
            target: None,
        }
    }
}

/// The accessor that reads the view `first + k`: joint indices for even
/// `k`, weights for odd `k`.
pub open spec fn weight_accessor(first: nat, vertices: nat, k: int) -> AccessorData {
    AccessorData {
        buffer_view: (first + k) as u32,
        byte_offset: 0,
        count: vertices as u32,
        component_type: if k % 2 == 0 {
            ComponentType::U8
        } else {
            ComponentType::F32
        },
        type_: Type::Vec4,
        min: None,
        max: None,
    }
}

/// The attribute map with the joints and weights of the first `sets`
/// sets, whose accessors start at `first`.
pub open spec fn weight_attributes(attributes: Seq<(Semantic, u32)>, first: nat, sets: nat) -> Seq<
    (Semantic, u32),
>
    decreases sets,
{
    if sets == 0 {
        attributes
    } else {
        let i = (sets - 1) as nat;
        attr_insert(
            attr_insert(
                weight_attributes(attributes, first, i),
                Semantic::Joints(i as u32),
                (first + 2 * i) as u32,
            ),
            Semantic::Weights(i as u32),
            (first + 2 * i + 1) as u32,
        )
    }
}

/// Every set of weights has one entry for each vertex.
pub open spec fn weights_complete(weights: Seq<Vec<[u32; 4]>>, vertices: nat) -> bool {
    forall|i: int| 0 <= i < weights.len() ==> (#[trigger] weights[i])@.len() == vertices
}

/// Whether the joint indices and weights can be laid out, and why not.
pub open spec fn put_joint_weight_outcome(b: RDGltfBuilder, weights: Seq<Vec<[u32; 4]>>) -> Result<
    (),
    RdmError,
> {
    let sets = offsets_of(b.rdm.vertex.layout(), UniqueIdentifier::I4b).len();
    let vertices = b.rdm.vertex.spec_len() as nat;
    if !(weights.len() == sets && weights_complete(weights, vertices)) {
        Err(RdmError::MalformedFormat(Malformed::AttributeCount))
    } else if sets > 0 && !(20 * vertices + 4 <= MAX_BLOB && b.has_room(sets, 2 * sets, 2 * sets)) {
        Err(RdmError::MalformedFormat(Malformed::TooLarge))
    } else {
        Ok(())
    }
}

/// What laying out the first `sets` sets of joints does to the builder:
/// each set becomes a buffer, with a view and an accessor for its joint
/// indices and a view and an accessor for its weights, and the attribute
/// map names both.
pub open spec fn joint_weights_added(
    old: RDGltfBuilder,
    new: RDGltfBuilder,
    normalise: bool,
    weights: Seq<Vec<[u32; 4]>>,
    sets: nat,
) -> bool {
    let vertices = old.rdm.vertex.spec_len() as nat;
    let buffer = old.buffers@.len();
    let view = old.buffer_views@.len();
    let accessor = old.accessors@.len();
    &&& new.obj.root == old.obj.root
    &&& new.obj.blobs() == old.obj.blobs() + Seq::new(
        sets,
        |i: int| weight_blob(weights[i]@, old.rdm.vertex, i as nat, normalise),
    )
    &&& views(new.buffers@) == views(old.buffers@) + Seq::new(
        sets,
        |i: int|
            BufferData {
                byte_length: (20 * vertices + 4) as u32,
                uri: buffer_file_name((buffer + i) as nat),
            },
    )
    &&& new.buffer_views@ == old.buffer_views@ + Seq::new(
        2 * sets,
        |k: int| weight_view(buffer, vertices, k),
    )
    &&& views(new.accessors@) == views(old.accessors@) + Seq::new(
        2 * sets,
        |k: int| weight_accessor(view, vertices, k),
    )
    &&& new.attr_map@ == weight_attributes(old.attr_map@, accessor, sets)
    &&& new == (RDGltfBuilder {
        buffers: new.buffers,
        buffer_views: new.buffer_views,
        accessors: new.accessors,
        attr_map: new.attr_map,
        obj: new.obj,
        ..old
    })
}

impl RDGltfBuilder {
    /// Serializes one set of joints: weights, joint indices, and four
    /// zero bytes.
    #[verifier::rlimit(50)]
    fn pack_weight_set(&self, set: usize, normalise: bool, weights: &Vec<[u32; 4]>) -> (r: Vec<u8>)
        requires
            set < offsets_of(self.rdm.vertex.layout(), UniqueIdentifier::I4b).len(),
            weights@.len() == self.rdm.vertex.spec_len(),
            20 * weights@.len() + 4 <= MAX_BLOB,
        ensures
            r@ == weight_blob(weights@, self.rdm.vertex, set as nat, normalise),
            r@.len() == 20 * weights@.len() + 4,
    {
        let n = weights.len();
        let ghost vertex = self.rdm.vertex;
        let ghost has_weights = component_offset(
            vertex.layout(),
            UniqueIdentifier::W4b,
            set as nat,
        ) is Some;
        let indices: Vec<I4b> = match self.rdm.vertex.iter::<I4b>(set) {
            Some(v) => v,
            None => vstd::pervasive::unreached(),
        };
        let stored: Vec<W4b> = match self.rdm.vertex.iter::<W4b>(set) {
            Some(v) => v,
            None => self.rdm.vertex.w4b_default_iter(),
        };
        let mut weight_ap_joint_buf = new_blob(20 * n + 4);
        let mut joint_buf = new_blob(4 * n);
        let mut v: usize = 0;
        while v < n
            invariant
                v <= n,
                n == weights@.len(),
                n == vertex.spec_len(),
                n == indices@.len(),
                n == stored@.len(),
                20 * n + 4 <= MAX_BLOB,
                vertex == self.rdm.vertex,
                component_offset(vertex.layout(), UniqueIdentifier::I4b, set as nat) is Some,
                has_weights == component_offset(
                    vertex.layout(),
                    UniqueIdentifier::W4b,
                    set as nat,
                ) is Some,
                forall|w: int|
                    0 <= w < n ==> (#[trigger] indices@[w]).decodes(
                        vertex.component_bytes(
                            w,
                            component_offset(
                                vertex.layout(),
                                UniqueIdentifier::I4b,
                                set as nat,
                            )->Some_0,
                            4,
                        ),
                    ),
                has_weights ==> forall|w: int|
                    0 <= w < n ==> (#[trigger] stored@[w]).decodes(
                        vertex.component_bytes(
                            w,
                            component_offset(
                                vertex.layout(),
                                UniqueIdentifier::W4b,
                                set as nat,
                            )->Some_0,
                            4,
                        ),
                    ),
                !has_weights ==> forall|w: int|
                    0 <= w < n ==> (#[trigger] stored@[w]).blend_weight@ == seq![
                        255u8,
                        0u8,
                        0u8,
                        0u8,
                    ],
                bytes_mut_view(weight_ap_joint_buf) == vectors_le(weights@.take(v as int)),
                bytes_mut_view(joint_buf) == joints_bytes(vertex, set as nat, normalise, v as nat),
            decreases n - v,
        {
            proof {
                crate::blob::lemma_vectors_le_len(weights@.take(v as int));
                assert(weights@.take(v as int + 1).drop_last() =~= weights@.take(v as int));
                assert(vectors_le(weights@.take(v as int)).len() == 16 * v);
            }
            put_words(&mut weight_ap_joint_buf, &weights[v]);
            let e = indices[v];
            let w = stored[v];
            proof {
                assert(e.decodes(
                    vertex.component_bytes(
                        v as int,
                        component_offset(
                            vertex.layout(),
                            UniqueIdentifier::I4b,
                            set as nat,
                        )->Some_0,
                        4,
                    ),
                ));
                if has_weights {
                    assert(w.decodes(
                        vertex.component_bytes(
                            v as int,
                            component_offset(
                                vertex.layout(),
                                UniqueIdentifier::W4b,
                                set as nat,
                            )->Some_0,
                            4,
                        ),
                    ));
                } else {
                    assert(w.blend_weight@ == seq![255u8, 0u8, 0u8, 0u8]);
                }
                assert(forall|k: int|
                    0 <= k < 4 ==> w.blend_weight@[k] == stored_weight(
                        vertex,
                        set as nat,
                        v as int,
                        k,
                    ));
            }
            let ghost before = bytes_mut_view(joint_buf);
            let mut k: usize = 0;
            while k < 4
                invariant
                    k <= 4,
                    before.len() == 4 * v,
                    4 * n <= MAX_BLOB,
                    v < n,
                    forall|s: int|
                        0 <= s < 4 ==> w.blend_weight@[s] == stored_weight(
                            vertex,
                            set as nat,
                            v as int,
                            s,
                        ),
                    forall|s: int|
                        0 <= s < 4 ==> e.blend_idx@[s] == vertex.component_byte(
                            UniqueIdentifier::I4b,
                            set as nat,
                            v as int,
                            s,
                        ),
                    bytes_mut_view(joint_buf) == before + Seq::new(
                        k as nat,
                        |s: int| emitted_joint(vertex, set as nat, normalise, v as int, s),
                    ),
                decreases 4 - k,
            {
                let joint = if normalise && w.blend_weight[k] == 0 {
                    0
                } else {
                    e.blend_idx[k]
                };
                bytes_mut_put_u8(&mut joint_buf, joint);
                assert(bytes_mut_view(joint_buf) =~= before + Seq::new(
                    (k + 1) as nat,
                    |s: int| emitted_joint(vertex, set as nat, normalise, v as int, s),
                ));
                k = k + 1;
            }
            assert(bytes_mut_view(joint_buf) =~= joints_bytes(
                vertex,
                set as nat,
                normalise,
                (v + 1) as nat,
            ));
            v = v + 1;
        }
        proof {
            assert(weights@.take(n as int) =~= weights@);
            crate::blob::lemma_vectors_le_len(weights@);
        }
        let joints = bytes_mut_to_vec(&joint_buf);
        bytes_mut_put_slice(&mut weight_ap_joint_buf, joints.as_slice());
        bytes_mut_put_u32_le(&mut weight_ap_joint_buf, 0);
        bytes_mut_to_vec(&weight_ap_joint_buf)
    }

    /// Lays out the joint indices and weights of the vertices, set by
    /// set. `weights` holds, for each set of joints that the vertices
    /// have, the four weights of each vertex. With `normalise`, a slot
    /// that has no weight in the model names joint 0.
    #[verifier::rlimit(50)]
    pub fn put_joint_weight(&mut self, normalise: bool, weights: &Vec<Vec<[u32; 4]>>) -> (r: Result<
        (),
        RdmError,
    >)
        requires
            old(self).wf(),
        ensures
            final(self).wf(),
            match put_joint_weight_outcome(*old(self), weights@) {
                Ok(()) => r is Ok && joint_weights_added(
                    *old(self),
                    *final(self),
                    normalise,
                    weights@,
                    weights@.len(),
                ),
                Err(e) => r == Err::<(), RdmError>(e) && *final(self) == *old(self),
            },
    {
        let n = self.rdm.vertex.find(UniqueIdentifier::I4b).len();
        let vertices = self.rdm.vertex.len();
        if weights.len() != n {
            return Err(RdmError::MalformedFormat(Malformed::AttributeCount));
        }
        let mut c: usize = 0;
        while c < n
            invariant
                c <= n,
                n == weights@.len(),
                n == offsets_of(self.rdm.vertex.layout(), UniqueIdentifier::I4b).len(),
                vertices == self.rdm.vertex.spec_len(),
                *self == *old(self),
                self.wf(),
                weights_complete(weights@.take(c as int), vertices as nat),
            decreases n - c,
        {
            if weights[c].len() as u64 != vertices as u64 {
                proof {
                    assert(weights@[c as int]@.len() != vertices);
                }
                return Err(RdmError::MalformedFormat(Malformed::AttributeCount));
            }
            proof {
                let now = weights@.take(c as int + 1);
                assert forall|i: int| 0 <= i < now.len() implies (#[trigger] now[i])@.len()
                    == vertices by {
                    if i < c {
                        assert(weights@.take(c as int)[i] == now[i]);
                    }
                }
            }
            c = c + 1;
        }
        assert(weights@.take(n as int) =~= weights@);
        if n == 0 {
            proof {
                assert(self.obj.blobs() =~= self.obj.blobs() + Seq::new(
                    0,
                    |i: int| weight_blob(weights@[i]@, self.rdm.vertex, i as nat, normalise),
                ));
                assert(views(self.buffers@) =~= views(self.buffers@) + Seq::new(
                    0,
                    |i: int|
                        BufferData {
                            byte_length: (20 * vertices + 4) as u32,
                            uri: buffer_file_name((self.buffers@.len() + i) as nat),
                        },
                ));
                assert(self.buffer_views@ =~= self.buffer_views@ + Seq::new(
                    0,
                    |k: int| weight_view(self.buffers@.len(), vertices as nat, k),
                ));
                assert(views(self.accessors@) =~= views(self.accessors@) + Seq::new(
                    0,
                    |k: int| weight_accessor(self.buffer_views@.len(), vertices as nat, k),
                ));
            }
            return Ok(());
        }
        if !(vertices as u64 <= (MAX_BLOB as u64 - 4) / 20 && n as u64 <= (u32::MAX / 2) as u64
            && self.check_room(n as u32, 2 * (n as u32), 2 * (n as u32))) {
            return Err(RdmError::MalformedFormat(Malformed::TooLarge));
        }
        let ghost start = *self;
        let mut i: usize = 0;
        proof {
            assert(self.obj.blobs() =~= start.obj.blobs() + Seq::new(
                0,
                |i: int| weight_blob(weights@[i]@, start.rdm.vertex, i as nat, normalise),
            ));
            assert(views(self.buffers@) =~= views(start.buffers@) + Seq::new(
                0,
                |i: int|
                    BufferData {
                        byte_length: (20 * vertices + 4) as u32,
                        uri: buffer_file_name((start.buffers@.len() + i) as nat),
                    },
            ));
            assert(self.buffer_views@ =~= start.buffer_views@ + Seq::new(
                0,
                |k: int| weight_view(start.buffers@.len(), vertices as nat, k),
            ));
            assert(views(self.accessors@) =~= views(start.accessors@) + Seq::new(
                0,
                |k: int| weight_accessor(start.buffer_views@.len(), vertices as nat, k),
            ));
        }
        while i < n
            invariant
                i <= n,
                self.wf(),
                n == weights@.len(),
                n == offsets_of(start.rdm.vertex.layout(), UniqueIdentifier::I4b).len(),
                vertices == start.rdm.vertex.spec_len(),
                weights_complete(weights@, vertices as nat),
                20 * vertices + 4 <= MAX_BLOB,
                start.has_room(n as nat, (2 * n) as nat, (2 * n) as nat),
                self.buffers@.len() == start.buffers@.len() + i,
                self.buffer_views@.len() == start.buffer_views@.len() + 2 * i,
                self.accessors@.len() == start.accessors@.len() + 2 * i,
                joint_weights_added(start, *self, normalise, weights@, i as nat),
            decreases n - i,
        {
            let ghost before = *self;
            assert(weights@[i as int]@.len() == vertices);
            let blob = self.pack_weight_set(i, normalise, &weights[i]);
            let ghost bytes = blob@;
            let jw_buffer_p = self.add_buffer(blob, vertices);
            let weight_len: u32 = 16 * vertices;
            let joint_len: u32 = 4 * vertices;
            let joint_buffer_view_idx = self.add_view(
                BufferView {
                    buffer: jw_buffer_p.idx,
                    byte_length: joint_len,
                    byte_offset: Some(weight_len),
                    target: None,
                },
            );
            let joint_accessor_idx = self.add_accessor(
                Accessor {
                    buffer_view: joint_buffer_view_idx,
                    byte_offset: 0,
                    count: vertices,
                    component_type: ComponentType::U8,
                    type_: Type::Vec4,
                    min: None,
                    max: None,
                },
            );
            let weight_buffer_view_idx = self.add_view(
                BufferView {
                    buffer: jw_buffer_p.idx,
                    byte_length: weight_len,
                    byte_offset: None,
                    target: None,
                },
            );
            let weight_accessor_idx = self.add_accessor(
                Accessor {
                    buffer_view: weight_buffer_view_idx,
                    byte_offset: 0,
                    count: vertices,
                    component_type: ComponentType::F32,
                    type_: Type::Vec4,
                    min: None,
                    max: None,
                },
            );
            self.set_attribute(Semantic::Joints(i as u32), joint_accessor_idx);
            self.set_attribute(Semantic::Weights(i as u32), weight_accessor_idx);
            proof {
                let b0 = start.buffers@.len();
                let v0 = start.buffer_views@.len();
                assert(crate::blob::padded(bytes) =~= bytes);
                assert(self.obj.blobs() =~= start.obj.blobs() + Seq::new(
                    (i + 1) as nat,
                    |s: int| weight_blob(weights@[s]@, start.rdm.vertex, s as nat, normalise),
                ));
                assert(views(self.buffers@) =~= views(start.buffers@) + Seq::new(
                    (i + 1) as nat,
                    |s: int|
                        BufferData {
                            byte_length: (20 * vertices + 4) as u32,
                            uri: buffer_file_name((b0 + s) as nat),
                        },
                ));
                assert(self.buffer_views@ =~= start.buffer_views@ + Seq::new(
                    (2 * (i + 1)) as nat,
                    |k: int| weight_view(b0, vertices as nat, k),
                ));
                assert(views(self.accessors@) =~= views(start.accessors@) + Seq::new(
                    (2 * (i + 1)) as nat,
                    |k: int| weight_accessor(v0, vertices as nat, k),
                ));
            }
            i = i + 1;
        }
        Ok(())
    }
}

} // verus!
