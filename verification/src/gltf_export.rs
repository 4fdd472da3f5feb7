//! Builds a glTF document from a decoded model.
//!
//! The builder takes the model and, step by step, the numbers that are
//! computed from it in floating point elsewhere; it lays out the binary
//! blobs and keeps the books of the document: which buffer holds which
//! bytes, which view covers which range, which accessor reads which view.

pub mod animation;
pub mod attributes;
pub mod indices;
pub mod materials;
pub mod skeleton;
pub mod weights;

use crate::blob::{padded, vectors_le, MAX_BLOB, PushBufferResult, RDGltf};
use crate::error::{Malformed, Missing, RdmError};
use crate::gltf_export::animation::{animation_added, put_rdm_anim_outcome};
use crate::gltf_export::attributes::{
    attribute_added,
    attribute_outcome,
    tangents_le,
    AttributeBlob,
};
use crate::gltf_export::indices::{indices_added, put_idx_outcome};
use crate::gltf_export::materials::{materials_added, materials_fit};
use crate::gltf_export::skeleton::{joint_nodes_added, put_joint_nodes_outcome};
use crate::gltf_export::weights::{joint_weights_added, put_joint_weight_outcome};
use crate::gltf_json::{
    attr_insert,
    attr_keys_distinct,
    attr_put,
    attr_values_below,
    lemma_attr_insert,
    views,
    Accessor,
    Animation,
    Buffer,
    BufferData,
    BufferView,
    Image,
    Material,
    Mesh,
    Node,
    NodeData,
    Primitive,
    PrimitiveData,
    Root,
    Scene,
    Semantic,
    Skin,
    Target,
    Texture,
    Type,
};
use crate::joints::JointFlattening;
use crate::model::RDModell;
use crate::submesh::MeshInstance;
use crate::text::buffer_file_name;
use crate::vertex::UniqueIdentifier;
use vstd::prelude::*;

verus! {

/// How the joints of a skeleton become nodes.
#[derive(Clone, Copy, Debug, PartialEq, Eq, Hash, Structural)]
pub enum JointOption {
    /// Every joint hangs below its parent, with a transform relative to
    /// it.
    ResolveParentNode,
    /// Every joint hangs below the scene root and keeps its transform.
    ResolveAllRoot,
}

/// The working state of an export: the model, and the parts of the
/// document as far as they are laid out.
#[derive(Debug)]
pub struct RDGltfBuilder {
    pub name: Option<String>,
    pub buffers: Vec<Buffer>,
    pub buffer_views: Vec<BufferView>,
    pub accessors: Vec<Accessor>,
    pub nodes: Vec<Node>,
    pub attr_map: Vec<(Semantic, u32)>,
    pub idx: Option<Vec<u32>>,
    pub rdm: RDModell,
    pub obj: RDGltf,
    pub skin: Option<Skin>,
    pub anim_node: Option<Animation>,
    pub material_idx: Option<Vec<u32>>,
    pub material_vec: Vec<Material>,
    pub texture_vec: Vec<Texture>,
    pub image_vec: Vec<Image>,
    pub sampler_vec: u32,
}

/// The buffer at index `i` names the file of the blob at index `i` and
/// announces no more bytes than the blob has.
pub open spec fn buffer_ok(buffer: Buffer, i: int, blob: Seq<u8>) -> bool {
    &&& buffer.uri@ == buffer_file_name(i as nat)
    &&& buffer.byte_length <= blob.len()
    &&& blob.len() % 4 == 0
}

/// Where a view starts in its buffer.
pub open spec fn view_start(view: BufferView) -> nat {
    match view.byte_offset {
        Some(offset) => offset as nat,
        None => 0,
    }
}

/// The view lies within a buffer that exists.
pub open spec fn view_ok(view: BufferView, buffers: Seq<Buffer>) -> bool {
    &&& view.buffer < buffers.len()
    &&& view_start(view) + view.byte_length <= buffers[view.buffer as int].byte_length
}

/// Every index is one of the first `n`.
pub open spec fn all_below(indices: Seq<u32>, n: nat) -> bool {
    forall|i: int| 0 <= i < indices.len() ==> #[trigger] indices[i] < n
}

/// The node names only nodes that exist as its children, the one mesh of
/// the document as its mesh, and the one skin as its skin.
pub open spec fn node_ok(node: Node, nodes: nat, has_skin: bool) -> bool {
    &&& node.children is Some ==> all_below(node.children->Some_0@, nodes)
    &&& node.mesh is Some ==> node.mesh->Some_0 == 0
    &&& node.skin is Some ==> node.skin->Some_0 == 0 && has_skin
}

/// The skin names nodes and an accessor that exist.
pub open spec fn skin_ok(skin: Skin, nodes: nat, accessors: nat) -> bool {
    &&& all_below(skin.joints@, nodes)
    &&& skin.inverse_bind_matrices is Some ==> skin.inverse_bind_matrices->Some_0 < accessors
}

/// The samplers of the animation name accessors that exist, and its
/// channels name samplers of the animation and nodes that exist.
pub open spec fn animation_ok(animation: Animation, nodes: nat, accessors: nat) -> bool {
    &&& forall|i: int|
        0 <= i < animation.samplers@.len() ==> (#[trigger] animation.samplers@[i]).input
            < accessors && animation.samplers@[i].output < accessors
    &&& forall|i: int|
        0 <= i < animation.channels@.len() ==> (#[trigger] animation.channels@[i]).sampler
            < animation.samplers@.len() && animation.channels@[i].node < nodes
}

/// The texture names an image and a sampler that exist.
pub open spec fn texture_ok(texture: Texture, images: nat, samplers: nat) -> bool {
    texture.source < images && texture.sampler < samplers
}

/// The material names a texture that exists, if it names one.
pub open spec fn material_ok(material: Material, textures: nat) -> bool {
    material.base_color_texture is Some ==> material.base_color_texture->Some_0 < textures
}

/// The number of primitives of the mesh: one for each submesh, as far as
/// indices and materials are laid out for them.
pub open spec fn primitive_count(b: RDGltfBuilder) -> nat {
    let submeshes = b.rdm.mesh_info@.len();
    let indices = b.idx->Some_0@.len();
    let materials = b.material_idx->Some_0@.len();
    if submeshes <= indices && submeshes <= materials {
        submeshes
    } else if indices <= materials {
        indices
    } else {
        materials
    }
}

/// Each of the first `n` submeshes has its place in the table as its id.
pub open spec fn ids_in_place(submeshes: Seq<MeshInstance>, n: nat) -> bool {
    forall|i: int| 0 <= i < n ==> (#[trigger] submeshes[i]).mesh == i
}

/// Whether the document can be built, and why not.
pub open spec fn build_outcome(b: RDGltfBuilder) -> Result<(), RdmError> {
    if b.idx is None {
        Err(RdmError::MissingData(Missing::Indices))
    } else if b.material_idx is None {
        Err(RdmError::MissingData(Missing::Materials))
    } else if !ids_in_place(b.rdm.mesh_info@, primitive_count(b)) {
        Err(RdmError::MalformedFormat(Malformed::SubmeshId))
    } else if b.nodes@.len() > u32::MAX {
        Err(RdmError::MalformedFormat(Malformed::TooLarge))
    } else {
        Ok(())
    }
}

/// The node of a document without skeleton: it holds the mesh and
/// nothing else.
pub open spec fn mesh_node() -> NodeData {
    NodeData {
        children: None,
        mesh: Some(0),
        name: None,
        rotation: None,
        translation: None,
        skin: None,
    }
}

/// The document that a builder builds: the lists that were laid out, one
/// mesh with a primitive for each submesh, and one scene whose root is
/// the last node. A document without nodes gets one for the mesh.
pub open spec fn root_built(b: RDGltfBuilder, root: Root) -> bool {
    &&& root.accessors == b.accessors
    &&& root.buffers == b.buffers
    &&& root.buffer_views == b.buffer_views
    &&& root.materials == b.material_vec
    &&& root.textures == b.texture_vec
    &&& root.images == b.image_vec
    &&& root.samplers == b.sampler_vec
    &&& views(root.meshes@) == seq![
        Seq::new(
            primitive_count(b),
            |i: int|
                PrimitiveData {
                    attributes: b.attr_map@,
                    indices: b.idx->Some_0@[i],
                    material: b.material_idx->Some_0@[i],
                },
        ),
    ]
    &&& if b.nodes@.len() == 0 {
        views(root.nodes@) == seq![mesh_node()]
    } else {
        root.nodes == b.nodes
    }
    &&& views(root.scenes@) == seq![seq![(root.nodes@.len() - 1) as u32]]
    &&& match b.skin {
        Some(skin) => root.skins@ == seq![skin],
        None => root.skins@.len() == 0,
    }
    &&& match b.anim_node {
        Some(animation) => root.animations@ == seq![animation],
        None => root.animations@.len() == 0,
    }
}

/// The finished document is consistent in itself: every buffer has its
/// blob and names the file of that blob, every view lies within a buffer,
/// and whatever names a view, an accessor, a node, a mesh, a skin, a
/// material, a texture, an image or a sampler by its index names one that
/// exists.
pub open spec fn document_ok(doc: RDGltf) -> bool {
    let root = doc.root->Some_0;
    &&& doc.root is Some
    &&& root.buffers@.len() == doc.buffers@.len()
    &&& forall|i: int|
        0 <= i < root.buffers@.len() ==> buffer_ok(
            #[trigger] root.buffers@[i],
            i,
            doc.buffers@[i]@,
        )
    &&& forall|i: int|
        0 <= i < root.buffer_views@.len() ==> view_ok(
            #[trigger] root.buffer_views@[i],
            root.buffers@,
        )
    &&& forall|i: int|
        0 <= i < root.accessors@.len() ==> (#[trigger] root.accessors@[i]).buffer_view
            < root.buffer_views@.len()
    &&& forall|m: int, p: int|
        0 <= m < root.meshes@.len() && 0 <= p < root.meshes@[m]@.len() ==> {
            let primitive = #[trigger] root.meshes@[m]@[p];
            &&& primitive.indices < root.accessors@.len()
            &&& primitive.material < root.materials@.len()
            &&& attr_values_below(primitive.attributes, root.accessors@.len())
        }
    &&& forall|s: int, k: int|
        0 <= s < root.scenes@.len() && 0 <= k < root.scenes@[s]@.len() ==> (
        #[trigger] root.scenes@[s]@[k]) < root.nodes@.len()
    &&& root.meshes@.len() == 1
    &&& root.skins@.len() <= 1
    &&& forall|i: int|
        0 <= i < root.nodes@.len() ==> node_ok(
            #[trigger] root.nodes@[i],
            root.nodes@.len(),
            root.skins@.len() == 1,
        )
    &&& forall|i: int|
        0 <= i < root.skins@.len() ==> skin_ok(
            #[trigger] root.skins@[i],
            root.nodes@.len(),
            root.accessors@.len(),
        )
    &&& forall|i: int|
        0 <= i < root.animations@.len() ==> animation_ok(
            #[trigger] root.animations@[i],
            root.nodes@.len(),
            root.accessors@.len(),
        )
    &&& forall|i: int|
        0 <= i < root.textures@.len() ==> texture_ok(
            #[trigger] root.textures@[i],
            root.images@.len(),
            root.samplers as nat,
        )
    &&& forall|i: int|
        0 <= i < root.materials@.len() ==> material_ok(
            #[trigger] root.materials@[i],
            root.textures@.len(),
        )
}

/// A copy of an attribute map.
fn copy_attributes(v: &Vec<(Semantic, u32)>) -> (r: Vec<(Semantic, u32)>)
    ensures
        r@ == v@,
{
    let mut out: Vec<(Semantic, u32)> = Vec::new();
    let mut i: usize = 0;
    while i < v.len()
        invariant
            i <= v.len(),
            out@ == v@.take(i as int),
        decreases v.len() - i,
    {
        out.push(v[i]);
        assert(out@ =~= v@.take(i as int + 1));
        i = i + 1;
    }
    assert(v@.take(v.len() as int) =~= v@);
    out
}

/// The numbers that are computed from a model in floating point, as bit
/// patterns of single-precision numbers: for every vertex its position,
/// texture coordinate, unit normal and unit tangent, as far as the model
/// has them, and its weights for every set of joints; the bounds of the
/// positions; for every joint the inverse bind matrix, column by column;
/// and the end of the animation in seconds.
#[derive(Clone, Debug)]
pub struct Computed {
    pub positions: Vec<[u32; 3]>,
    pub position_min: [u32; 3],
    pub position_max: [u32; 3],
    pub texcoords: Vec<[u32; 2]>,
    pub normals: Vec<[u32; 3]>,
    pub tangents: Vec<[u32; 3]>,
    pub weights: Vec<Vec<[u32; 4]>>,
    pub inverse_bind: Vec<[u32; 16]>,
    pub time_max: u32,
}

/// The number of steps of an export.
pub const EXPORT_STEPS: usize = 9;

/// The builder holds `rdm` and nothing else.
pub open spec fn is_initial(b: RDGltfBuilder, rdm: RDModell) -> bool {
    &&& b.rdm == rdm
    &&& b.buffers@.len() == 0
    &&& b.buffer_views@.len() == 0
    &&& b.accessors@.len() == 0
    &&& b.nodes@.len() == 0
    &&& b.attr_map@.len() == 0
    &&& b.obj.buffers@.len() == 0
    &&& b.obj.root is None
    &&& b.name is None && b.idx is None && b.skin is None && b.anim_node is None
        && b.material_idx is None
    &&& b.material_vec@.len() == 0 && b.texture_vec@.len() == 0 && b.image_vec@.len() == 0
        && b.sampler_vec == 0
}

/// What becomes of step `k` of an export in the state `b`: the step
/// changes the state, or leaves it as it is, or fails. The steps are, in
/// this order: positions, triangle indices, texture coordinates,
/// materials, normals, tangents, and for a model with a skeleton the
/// joints, the weights and, if there is one, the animation.
pub open spec fn step_outcome(
    k: int,
    b: RDGltfBuilder,
    c: Computed,
    flattening: Option<JointFlattening>,
) -> Result<bool, RdmError> {
    if k == 0 {
        match attribute_outcome(b, UniqueIdentifier::P4h, c.positions@.len(), 12) {
            Ok(false) => Err(RdmError::MissingData(Missing::Positions)),
            other => other,
        }
    } else if k == 1 {
        match put_idx_outcome(b) {
            Ok(()) => Ok(true),
            Err(e) => Err(e),
        }
    } else if k == 2 {
        attribute_outcome(b, UniqueIdentifier::T2h, c.texcoords@.len(), 8)
    } else if k == 3 {
        if materials_fit(b) {
            Ok(true)
        } else {
            Err(RdmError::MalformedFormat(Malformed::TooLarge))
        }
    } else if k == 4 {
        attribute_outcome(b, UniqueIdentifier::N4b, c.normals@.len(), 12)
    } else if k == 5 {
        attribute_outcome(b, UniqueIdentifier::G4b, c.tangents@.len(), 16)
    } else if b.rdm.joints is None {
        Ok(false)
    } else if k == 6 {
        match flattening {
            None => Err(RdmError::MissingData(Missing::JointTransform)),
            Some(f) => match put_joint_nodes_outcome(b, f, c.inverse_bind@.len()) {
                Ok(()) => Ok(true),
                Err(e) => Err(e),
            },
        }
    } else if k == 7 {
        match put_joint_weight_outcome(b, c.weights@) {
            Ok(()) => Ok(true),
            Err(e) => Err(e),
        }
    } else if b.rdm.anim is None {
        Ok(false)
    } else {
        match put_rdm_anim_outcome(b) {
            Ok(()) => Ok(true),
            Err(e) => Err(e),
        }
    }
}

/// What step `k` of an export does to the state where it changes it.
pub open spec fn step_effect(
    k: int,
    old: RDGltfBuilder,
    new: RDGltfBuilder,
    c: Computed,
    flattening: Option<JointFlattening>,
) -> bool {
    if k == 0 {
        attribute_added(
            old,
            new,
            AttributeBlob {
                bytes: vectors_le(c.positions@),
                count: c.positions@.len() as u32,
                type_: Type::Vec3,
                semantic: Semantic::Positions,
                target: Some(Target::ArrayBuffer),
                min: Some(c.position_min@),
                max: Some(c.position_max@),
            },
        )
    } else if k == 1 {
        indices_added(old, new)
    } else if k == 2 {
        attribute_added(
            old,
            new,
            AttributeBlob {
                bytes: vectors_le(c.texcoords@),
                count: c.texcoords@.len() as u32,
                type_: Type::Vec2,
                semantic: Semantic::TexCoords(0),
                target: None,
                min: None,
                max: None,
            },
        )
    } else if k == 3 {
        materials_added(old, new)
    } else if k == 4 {
        attribute_added(
            old,
            new,
            AttributeBlob {
                bytes: vectors_le(c.normals@),
                count: c.normals@.len() as u32,
                type_: Type::Vec3,
                semantic: Semantic::Normals,
                target: None,
                min: None,
                max: None,
            },
        )
    } else if k == 5 {
        attribute_added(
            old,
            new,
            AttributeBlob {
                bytes: tangents_le(c.tangents@, old.rdm.vertex),
                count: c.tangents@.len() as u32,
                type_: Type::Vec4,
                semantic: Semantic::Tangents,
                target: None,
                min: None,
                max: None,
            },
        )
    } else if k == 6 {
        flattening is Some && joint_nodes_added(old, new, flattening->Some_0, c.inverse_bind@)
    } else if k == 7 {
        joint_weights_added(old, new, true, c.weights@, c.weights@.len())
    } else {
        animation_added(old, new, c.time_max)
    }
}

/// Step `k` of an export leads from the state `old` to the state `new`.
pub open spec fn step_taken(
    k: int,
    old: RDGltfBuilder,
    new: RDGltfBuilder,
    c: Computed,
    flattening: Option<JointFlattening>,
) -> bool {
    match step_outcome(k, old, c, flattening) {
        Ok(true) => step_effect(k, old, new, c, flattening),
        Ok(false) => new == old,
        Err(_) => false,
    }
}

/// The first `k` steps of an export of `rdm` lead through the states
/// `s[0]` to `s[k]`.
pub open spec fn export_trace(
    rdm: RDModell,
    c: Computed,
    flattening: Option<JointFlattening>,
    s: Seq<RDGltfBuilder>,
    k: nat,
) -> bool
    decreases k,
{
    if k == 0 {
        s.len() > 0 && is_initial(s[0], rdm)
    } else {
        &&& s.len() > k
        &&& export_trace(rdm, c, flattening, s, (k - 1) as nat)
        &&& step_taken(k - 1, s[k - 1], s[k as int], c, flattening)
    }
}

/// A trace stays a trace when a state is put behind it.
proof fn lemma_trace_prefix(
    rdm: RDModell,
    c: Computed,
    flattening: Option<JointFlattening>,
    s: Seq<RDGltfBuilder>,
    next: RDGltfBuilder,
    k: nat,
)
    requires
        export_trace(rdm, c, flattening, s, k),
    ensures
        export_trace(rdm, c, flattening, s.push(next), k),
    decreases k,
{
    if k > 0 {
        lemma_trace_prefix(rdm, c, flattening, s, next, (k - 1) as nat);
    }
}

/// A trace of `k` steps and step `k` make a trace of `k + 1` steps.
proof fn lemma_trace_extend(
    rdm: RDModell,
    c: Computed,
    flattening: Option<JointFlattening>,
    s: Seq<RDGltfBuilder>,
    next: RDGltfBuilder,
    k: nat,
)
    requires
        export_trace(rdm, c, flattening, s, k),
        s.len() == k + 1,
        step_taken(k as int, s[k as int], next, c, flattening),
    ensures
        export_trace(rdm, c, flattening, s.push(next), k + 1),
        s.push(next).len() == k + 2,
        s.push(next)[k as int + 1] == next,
{
    lemma_trace_prefix(rdm, c, flattening, s, next, k);
}

impl RDGltfBuilder {
    /// The books are in order: every buffer has its blob and names its
    /// file, every view lies within a buffer, every accessor reads a
    /// view, and the attribute map names each meaning once, with an
    /// accessor that exists.
    pub open spec fn wf(&self) -> bool {
        &&& self.buffers@.len() == self.obj.buffers@.len()
        &&& self.buffers@.len() <= u32::MAX
        &&& self.buffer_views@.len() <= u32::MAX
        &&& self.accessors@.len() <= u32::MAX
        &&& forall|i: int|
            0 <= i < self.buffers@.len() ==> buffer_ok(
                #[trigger] self.buffers@[i],
                i,
                self.obj.buffers@[i]@,
            )
        &&& forall|i: int|
            0 <= i < self.buffer_views@.len() ==> view_ok(
                #[trigger] self.buffer_views@[i],
                self.buffers@,
            )
        &&& forall|i: int|
            0 <= i < self.accessors@.len() ==> (#[trigger] self.accessors@[i]).buffer_view
                < self.buffer_views@.len()
        &&& attr_keys_distinct(self.attr_map@)
        &&& attr_values_below(self.attr_map@, self.accessors@.len())
        &&& self.idx is Some ==> all_below(self.idx->Some_0@, self.accessors@.len())
        &&& self.material_idx is Some ==> all_below(
            self.material_idx->Some_0@,
            self.material_vec@.len(),
        )
        &&& forall|i: int|
            0 <= i < self.nodes@.len() ==> node_ok(
                #[trigger] self.nodes@[i],
                self.nodes@.len(),
                self.skin is Some,
            )
        &&& self.skin is Some ==> skin_ok(
            self.skin->Some_0,
            self.nodes@.len(),
            self.accessors@.len(),
        )
        &&& self.anim_node is Some ==> animation_ok(
            self.anim_node->Some_0,
            self.nodes@.len(),
            self.accessors@.len(),
        )
        &&& forall|i: int|
            0 <= i < self.texture_vec@.len() ==> texture_ok(
                #[trigger] self.texture_vec@[i],
                self.image_vec@.len(),
                self.sampler_vec as nat,
            )
        &&& forall|i: int|
            0 <= i < self.material_vec@.len() ==> material_ok(
                #[trigger] self.material_vec@[i],
                self.texture_vec@.len(),
            )
    }

    /// There is room for this many more buffers, views and accessors:
    /// the index of each still fits in 32 bits.
    pub open spec fn has_room(&self, buffers: nat, views: nat, accessors: nat) -> bool {
        &&& self.buffers@.len() + buffers <= u32::MAX
        &&& self.buffer_views@.len() + views <= u32::MAX
        &&& self.accessors@.len() + accessors <= u32::MAX
    }

    /// Tells whether there is room for this many more buffers, views and
    /// accessors.
    pub fn check_room(&self, buffers: u32, views: u32, accessors: u32) -> (b: bool)
        ensures
            b == self.has_room(buffers as nat, views as nat, accessors as nat),
    {
        self.buffers.len() as u64 <= (u32::MAX - buffers) as u64 && self.buffer_views.len() as u64
            <= (u32::MAX - views) as u64 && self.accessors.len() as u64 <= (u32::MAX
            - accessors) as u64
    }

    /// A builder for `rdm` with an empty document.
    pub fn new(rdm: RDModell) -> (b: RDGltfBuilder)
        ensures
            b.wf(),
            b.rdm == rdm,
            b.buffers@.len() == 0,
            b.buffer_views@.len() == 0,
            b.accessors@.len() == 0,
            b.nodes@.len() == 0,
            b.attr_map@.len() == 0,
            b.obj.buffers@.len() == 0,
            b.obj.root is None,
            b.name is None && b.idx is None && b.skin is None && b.anim_node is None
                && b.material_idx is None,
            b.material_vec@.len() == 0 && b.texture_vec@.len() == 0 && b.image_vec@.len() == 0
                && b.sampler_vec == 0,
    {
        RDGltfBuilder {
            name: None,
            buffers: Vec::new(),
            buffer_views: Vec::new(),
            accessors: Vec::new(),
            nodes: Vec::new(),
            attr_map: Vec::new(),
            rdm,
            obj: RDGltf::new(),
            skin: None,
            idx: None,
            anim_node: None,
            material_idx: None,
            material_vec: Vec::new(),
            texture_vec: Vec::new(),
            image_vec: Vec::new(),
            sampler_vec: 0,
        }
    }

    /// Stores a blob as the next buffer of the document.
    #[verifier::rlimit(50)]
    fn add_buffer(&mut self, blob: Vec<u8>, num: u32) -> (p: PushBufferResult)
        requires
            old(self).wf(),
            blob@.len() <= MAX_BLOB,
            old(self).buffers@.len() < u32::MAX,
        ensures
            final(self).wf(),
            p.idx == old(self).buffers@.len(),
            p.num == num,
            p.len == padded(blob@).len(),
            final(self).obj.root == old(self).obj.root,
            final(self).obj.blobs() == old(self).obj.blobs().push(padded(blob@)),
            views(final(self).buffers@) == views(old(self).buffers@).push(
                BufferData { byte_length: p.len, uri: buffer_file_name(p.idx as nat) },
            ),
            final(self).buffers@.len() == old(self).buffers@.len() + 1,
            final(self).buffers@[p.idx as int].byte_length == p.len,
            *final(self) == (RDGltfBuilder {
                buffers: final(self).buffers,
                obj: final(self).obj,
                ..*old(self)
            }),
    {
        let ghost bytes = blob@;
        let ghost old_blobs = self.obj.buffers@;
        let ghost old_buffers = self.buffers@;
        let p = match self.obj.push_buffer(blob, num) {
            Ok(p) => p,
            Err(_) => vstd::pervasive::unreached(),
        };
        let buffer = Buffer { byte_length: p.len, uri: p.file_name.clone() };
        let ghost buffer_data = buffer@;
        self.buffers.push(buffer);
        proof {
            assert(views(self.buffers@) =~= views(old_buffers).push(buffer_data));
            assert(self.obj.blobs().len() == old_blobs.len() + 1);
            assert(self.obj.blobs()[old_blobs.len() as int] == padded(bytes));
            assert(self.obj.buffers@[old_blobs.len() as int]@ == padded(bytes));
            assert forall|i: int| 0 <= i < self.buffers@.len() implies buffer_ok(
                #[trigger] self.buffers@[i],
                i,
                self.obj.buffers@[i]@,
            ) by {
                if i < old_buffers.len() {
                    assert(self.buffers@[i] == old_buffers[i]);
                    assert(self.obj.blobs()[i] == old(self).obj.blobs()[i]);
                }
            }
            assert forall|i: int| 0 <= i < self.buffer_views@.len() implies view_ok(
                #[trigger] self.buffer_views@[i],
                self.buffers@,
            ) by {
                assert(view_ok(old(self).buffer_views@[i], old_buffers));
                assert(self.buffers@[self.buffer_views@[i].buffer as int]
                    == old_buffers[self.buffer_views@[i].buffer as int]);
            }
        }
        p
    }

    /// Adds a view and returns its index.
    fn add_view(&mut self, view: BufferView) -> (idx: u32)
        requires
            old(self).wf(),
            view_ok(view, old(self).buffers@),
            old(self).buffer_views@.len() < u32::MAX,
        ensures
            final(self).wf(),
            idx == old(self).buffer_views@.len(),
            final(self).buffer_views@ == old(self).buffer_views@.push(view),
            *final(self) == (RDGltfBuilder {
                buffer_views: final(self).buffer_views,
                ..*old(self)
            }),
    {
        self.buffer_views.push(view);
        proof {
            assert forall|i: int| 0 <= i < self.buffer_views@.len() implies view_ok(
                #[trigger] self.buffer_views@[i],
                self.buffers@,
            ) by {
                if i < old(self).buffer_views@.len() {
                    assert(self.buffer_views@[i] == old(self).buffer_views@[i]);
                }
            }
        }
        (self.buffer_views.len() - 1) as u32
    }

    /// Adds an accessor and returns its index.
    fn add_accessor(&mut self, accessor: Accessor) -> (idx: u32)
        requires
            old(self).wf(),
            accessor.buffer_view < old(self).buffer_views@.len(),
            old(self).accessors@.len() < u32::MAX,
        ensures
            final(self).wf(),
            idx == old(self).accessors@.len(),
            final(self).accessors@ == old(self).accessors@.push(accessor),
            views(final(self).accessors@) == views(old(self).accessors@).push(accessor@),
            *final(self) == (RDGltfBuilder { accessors: final(self).accessors, ..*old(self) }),
    {
        self.accessors.push(accessor);
        proof {
            assert(views(self.accessors@) =~= views(old(self).accessors@).push(accessor@));
            assert forall|i: int| 0 <= i < self.accessors@.len() implies (
            #[trigger] self.accessors@[i]).buffer_view < self.buffer_views@.len() by {
                if i < old(self).accessors@.len() {
                    assert(self.accessors@[i] == old(self).accessors@[i]);
                }
            }
        }
        (self.accessors.len() - 1) as u32
    }

    /// Names the accessor that holds the attribute of the given meaning.
    fn set_attribute(&mut self, semantic: Semantic, accessor: u32)
        requires
            old(self).wf(),
            accessor < old(self).accessors@.len(),
        ensures
            final(self).wf(),
            final(self).attr_map@ == attr_insert(old(self).attr_map@, semantic, accessor),
            *final(self) == (RDGltfBuilder { attr_map: final(self).attr_map, ..*old(self) }),
    {
        attr_put(&mut self.attr_map, semantic, accessor);
        proof {
            lemma_attr_insert(
                old(self).attr_map@,
                semantic,
                accessor,
                self.accessors@.len() as nat,
            );
        }
    }

    /// Lays out a whole model: positions, triangle indices, texture
    /// coordinates, materials, normals and tangents, and for a model with
    /// a skeleton the joints, the weights, which are taken as normalised,
    /// and the animation. The first step that fails ends the export with
    /// its error.
    #[verifier::rlimit(50)]
    pub fn from(rdm: RDModell, computed: &Computed, flattening: Option<JointFlattening>) -> (r:
        Result<RDGltfBuilder, RdmError>)
        requires
            flattening is Some ==> flattening->Some_0.wf(),
        ensures
            match r {
                Ok(b) => b.wf() && exists|s: Seq<RDGltfBuilder>| #[trigger]
                    export_trace(rdm, *computed, flattening, s, EXPORT_STEPS as nat)
                        && s[EXPORT_STEPS as int] == b,
                Err(e) => exists|s: Seq<RDGltfBuilder>, k: nat|
                    k < EXPORT_STEPS && #[trigger] export_trace(rdm, *computed, flattening, s, k)
                        && step_outcome(k as int, s[k as int], *computed, flattening) == Err::<
                        bool,
                        RdmError,
                    >(e),
            },
    {
        let has_skin = rdm.has_skin();
        let has_anim = rdm.anim.is_some();
        let mut b = RDGltfBuilder::new(rdm);
        let ghost c = *computed;
        let ghost mut s: Seq<RDGltfBuilder> = seq![b];
        assert(export_trace(rdm, c, flattening, s, 0));
        let step0 = b.put_vertex(
            &computed.positions,
            computed.position_min,
            computed.position_max,
        );
        match step0 {
            Ok(()) => {},
            Err(e) => {
                return Err(e);
            },
        }
        proof {
            lemma_trace_extend(rdm, c, flattening, s, b, 0);
            s = s.push(b);
        }
        let step1 = b.put_idx();
        match step1 {
            Ok(()) => {},
            Err(e) => {
                return Err(e);
            },
        }
        proof {
            lemma_trace_extend(rdm, c, flattening, s, b, 1);
            s = s.push(b);
        }
        let step2 = b.put_tex(&computed.texcoords);
        match step2 {
            Ok(()) => {},
            Err(e) => {
                return Err(e);
            },
        }
        proof {
            lemma_trace_extend(rdm, c, flattening, s, b, 2);
            s = s.push(b);
        }
        let step3 = b.put_material();
        match step3 {
            Ok(()) => {},
            Err(e) => {
                return Err(e);
            },
        }
        proof {
            lemma_trace_extend(rdm, c, flattening, s, b, 3);
            s = s.push(b);
        }
        let step4 = b.put_normal(&computed.normals);
        match step4 {
            Ok(()) => {},
            Err(e) => {
                return Err(e);
            },
        }
        proof {
            lemma_trace_extend(rdm, c, flattening, s, b, 4);
            s = s.push(b);
        }
        let step5 = b.put_tangent(&computed.tangents);
        match step5 {
            Ok(()) => {},
            Err(e) => {
                return Err(e);
            },
        }
        proof {
            lemma_trace_extend(rdm, c, flattening, s, b, 5);
            s = s.push(b);
        }
        if has_skin {
            let step6 = match &flattening {
                Some(f) => b.put_joint_nodes(f, &computed.inverse_bind),
                None => Err(RdmError::MissingData(Missing::JointTransform)),
            };
            match step6 {
                Ok(()) => {},
                Err(e) => {
                    return Err(e);
                },
            }
        }
        proof {
            lemma_trace_extend(rdm, c, flattening, s, b, 6);
            s = s.push(b);
        }
        if has_skin {
            let step7 = b.put_joint_weight(true, &computed.weights);
            match step7 {
                Ok(()) => {},
                Err(e) => {
                    return Err(e);
                },
            }
        }
        proof {
            lemma_trace_extend(rdm, c, flattening, s, b, 7);
            s = s.push(b);
        }
        if has_skin && has_anim {
            let step8 = b.put_rdm_anim(computed.time_max);
            match step8 {
                Ok(()) => {},
                Err(e) => {
                    return Err(e);
                },
            }
        }
        proof {
            lemma_trace_extend(rdm, c, flattening, s, b, 8);
            s = s.push(b);
        }
        Ok(b)
    }

    /// Builds the document from what was laid out. Indices and
    /// materials have to be laid out, and every submesh that gets a
    /// primitive has to have its place in the table as its id.
    #[verifier::rlimit(50)]
    pub fn build(self) -> (r: Result<RDGltf, RdmError>)
        requires
            self.wf(),
        ensures
            match build_outcome(self) {
                Ok(()) => r is Ok && r->Ok_0.buffers == self.obj.buffers && r->Ok_0.root is Some
                    && root_built(self, r->Ok_0.root->Some_0) && document_ok(r->Ok_0),
                Err(e) => r is Err && r->Err_0 == e,
            },
    {
        let ghost b = self;
        let mut this = self;
        let idx: Vec<u32> = match this.idx {
            Some(idx) => idx,
            None => {
                return Err(RdmError::MissingData(Missing::Indices));
            },
        };
        let material_idx: Vec<u32> = match this.material_idx {
            Some(m) => m,
            None => {
                return Err(RdmError::MissingData(Missing::Materials));
            },
        };
        let mut count = this.rdm.mesh_info.len();
        if idx.len() < count {
            count = idx.len();
        }
        if material_idx.len() < count {
            count = material_idx.len();
        }
        assert(count == primitive_count(b));
        let mut triangle_vec: Vec<Primitive> = Vec::new();
        let mut i: usize = 0;
        while i < count
            invariant
                i <= count,
                count <= this.rdm.mesh_info@.len(),
                count <= idx@.len(),
                count <= material_idx@.len(),
                this.rdm == b.rdm,
                this.attr_map == b.attr_map,
                b == self,
                b.idx == Some(idx),
                b.material_idx == Some(material_idx),
                count == primitive_count(b),
                ids_in_place(b.rdm.mesh_info@, i as nat),
                views(triangle_vec@) == Seq::new(
                    i as nat,
                    |k: int|
                        PrimitiveData {
                            attributes: b.attr_map@,
                            indices: idx@[k],
                            material: material_idx@[k],
                        },
                ),
            decreases count - i,
        {
            if this.rdm.mesh_info[i].mesh as u64 != i as u64 {
                assert(!ids_in_place(b.rdm.mesh_info@, count as nat));
                return Err(RdmError::MalformedFormat(Malformed::SubmeshId));
            }
            let primitive = Primitive {
                attributes: copy_attributes(&this.attr_map),
                indices: idx[i],
                material: material_idx[i],
            };
            let ghost before = triangle_vec@;
            let ghost data = primitive@;
            triangle_vec.push(primitive);
            proof {
                assert(views(triangle_vec@) =~= views(before).push(data));
                assert(views(triangle_vec@) =~= Seq::new(
                    (i + 1) as nat,
                    |k: int|
                        PrimitiveData {
                            attributes: b.attr_map@,
                            indices: idx@[k],
                            material: material_idx@[k],
                        },
                ));
            }
            i = i + 1;
        }
        if this.nodes.len() > u32::MAX as usize {
            return Err(RdmError::MalformedFormat(Malformed::TooLarge));
        }
        let mesh = Mesh { primitives: triangle_vec };
        let ghost mesh_data = mesh@;
        let mut nodes = this.nodes;
        if nodes.len() == 0 {
            let node_def = Node {
                children: None,
                mesh: Some(0),
                name: None,
                rotation: None,
                translation: None,
                skin: None,
            };
            nodes.push(node_def);
            assert(views(nodes@) =~= seq![mesh_node()]);
        }
        let node_len = (nodes.len() - 1) as u32;
        let mut scene_nodes: Vec<u32> = Vec::new();
        scene_nodes.push(node_len);
        let mut scenes: Vec<Scene> = Vec::new();
        scenes.push(Scene { nodes: scene_nodes });
        let mut meshes: Vec<Mesh> = Vec::new();
        meshes.push(mesh);
        let mut skins: Vec<Skin> = Vec::new();
        match this.skin {
            Some(skin) => {
                skins.push(skin);
            },
            None => {},
        }
        let mut animations: Vec<Animation> = Vec::new();
        match this.anim_node {
            Some(animation) => {
                animations.push(animation);
            },
            None => {},
        }
        proof {
            assert(views(meshes@) =~= seq![mesh_data]);
            assert(views(scenes@) =~= seq![seq![node_len]]);
        }
        let root = Root {
            accessors: this.accessors,
            buffers: this.buffers,
            buffer_views: this.buffer_views,
            meshes,
            nodes,
            scenes,
            skins,
            animations,
            materials: this.material_vec,
            textures: this.texture_vec,
            images: this.image_vec,
            samplers: this.sampler_vec,
        };
        let mut obj = this.obj;
        obj.root = Some(root);
        proof {
            let root = obj.root->Some_0;
            assert forall|m: int, p: int|
                0 <= m < root.meshes@.len() && 0 <= p < root.meshes@[m]@.len() implies {
                let primitive = #[trigger] root.meshes@[m]@[p];
                &&& primitive.indices < root.accessors@.len()
                &&& primitive.material < root.materials@.len()
                &&& attr_values_below(primitive.attributes, root.accessors@.len())
            } by {
                assert(root.meshes@[m]@ == views(root.meshes@)[m]);
                assert(b.idx->Some_0@[p] < b.accessors@.len());
                assert(b.material_idx->Some_0@[p] < b.material_vec@.len());
            }
            assert forall|s: int, k: int|
                0 <= s < root.scenes@.len() && 0 <= k < root.scenes@[s]@.len() implies (
            #[trigger] root.scenes@[s]@[k]) < root.nodes@.len() by {
                assert(root.scenes@[s]@ == views(root.scenes@)[s]);
            }
        }
        Ok(obj)
    }
}

} // verus!
