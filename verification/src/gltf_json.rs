//! The objects of a glTF 2.0 document, as far as a model needs them.
//!
//! Objects refer to each other by position: a buffer view names its buffer
//! by the buffer's index in the list of buffers, an accessor its view, and
//! so on. Numbers that a document gives as floating point stand here as
//! the bit patterns of single-precision numbers.

use vstd::prelude::*;

verus! {

/// The views of the items of a sequence, item by item.
pub open spec fn views<T: View>(s: Seq<T>) -> Seq<T::V> {
    Seq::new(s.len(), |i: int| s[i]@)
}

/// A binary blob and the file that holds it.
#[derive(Clone, Debug)]
pub struct Buffer {
    pub byte_length: u32,
    pub uri: String,
}

/// What a `Buffer` holds.
pub struct BufferData {
    pub byte_length: u32,
    pub uri: Seq<char>,
}

impl View for Buffer {
    type V = BufferData;

    open spec fn view(&self) -> BufferData {
        BufferData { byte_length: self.byte_length, uri: self.uri@ }
    }
}

/// What the graphics library binds a buffer view to.
#[derive(Clone, Copy, Debug, PartialEq, Eq, Structural)]
pub enum Target {
    ArrayBuffer,
    ElementArrayBuffer,
}

/// A range of bytes of a buffer.
#[derive(Clone, Copy, Debug, PartialEq, Eq, Structural)]
pub struct BufferView {
    pub buffer: u32,
    pub byte_length: u32,
    pub byte_offset: Option<u32>,
    pub target: Option<Target>,
}

/// The type of one component of an element.
#[derive(Clone, Copy, Debug, PartialEq, Eq, Structural)]
pub enum ComponentType {
    U8,
    U16,
    F32,
}

/// The shape of one element.
#[derive(Clone, Copy, Debug, PartialEq, Eq, Structural)]
pub enum Type {
    Scalar,
    Vec2,
    Vec3,
    Vec4,
    Mat4,
}

/// A typed array within a buffer view.
#[derive(Clone, Debug)]
pub struct Accessor {
    pub buffer_view: u32,
    pub byte_offset: u32,
    pub count: u32,
    pub component_type: ComponentType,
    pub type_: Type,
    pub min: Option<Vec<u32>>,
    pub max: Option<Vec<u32>>,
}

/// The numbers of a bound, if there is one.
pub open spec fn bound_view(bound: Option<Vec<u32>>) -> Option<Seq<u32>> {
    match bound {
        Some(v) => Some(v@),
        None => None,
    }
}

/// What an `Accessor` holds.
pub struct AccessorData {
    pub buffer_view: u32,
    pub byte_offset: u32,
    pub count: u32,
    pub component_type: ComponentType,
    pub type_: Type,
    pub min: Option<Seq<u32>>,
    pub max: Option<Seq<u32>>,
}

impl View for Accessor {
    type V = AccessorData;

    open spec fn view(&self) -> AccessorData {
        AccessorData {
            buffer_view: self.buffer_view,
            byte_offset: self.byte_offset,
            count: self.count,
            component_type: self.component_type,
            type_: self.type_,
            min: bound_view(self.min),
            max: bound_view(self.max),
        }
    }
}

/// What a vertex attribute means.
#[derive(Clone, Copy, Debug, PartialEq, Eq, Structural)]
pub enum Semantic {
    Positions,
    Normals,
    Tangents,
    TexCoords(u32),
    Joints(u32),
    Weights(u32),
}

/// The accessor that `attributes` has for `key`, by its place in the
/// list.
pub open spec fn attr_find(attributes: Seq<(Semantic, u32)>, key: Semantic) -> Option<int>
    decreases attributes.len(),
{
    if attributes.len() == 0 {
        None
    } else if attributes.last().0 == key {
        Some(attributes.len() - 1)
    } else {
        attr_find(attributes.drop_last(), key)
    }
}

/// `attributes` with `value` as the accessor for `key`: in the place of
/// the one it had, or behind all others.
pub open spec fn attr_insert(attributes: Seq<(Semantic, u32)>, key: Semantic, value: u32) -> Seq<
    (Semantic, u32),
> {
    match attr_find(attributes, key) {
        Some(i) => attributes.update(i, (key, value)),
        None => attributes.push((key, value)),
    }
}

/// No meaning occurs twice.
pub open spec fn attr_keys_distinct(attributes: Seq<(Semantic, u32)>) -> bool {
    forall|i: int, j: int|
        0 <= i < j < attributes.len() ==> (#[trigger] attributes[i]).0 != (
        #[trigger] attributes[j]).0
}

/// Every accessor named is one of the first `n`.
pub open spec fn attr_values_below(attributes: Seq<(Semantic, u32)>, n: nat) -> bool {
    forall|i: int| 0 <= i < attributes.len() ==> (#[trigger] attributes[i]).1 < n
}

proof fn lemma_attr_find(attributes: Seq<(Semantic, u32)>, key: Semantic)
    ensures
        match attr_find(attributes, key) {
            Some(i) => 0 <= i < attributes.len() && attributes[i].0 == key,
            None => forall|i: int| 0 <= i < attributes.len() ==> (#[trigger] attributes[i]).0 != key,
        },
    decreases attributes.len(),
{
    if attributes.len() > 0 && attributes.last().0 != key {
        let front = attributes.drop_last();
        lemma_attr_find(front, key);
        match attr_find(front, key) {
            Some(i) => {},
            None => {
                assert forall|i: int| 0 <= i < attributes.len() implies (
                #[trigger] attributes[i]).0 != key by {
                    if i < front.len() {
                        assert(front[i] == attributes[i]);
                    }
                }
            },
        }
    }
}

/// Inserting keeps the meanings distinct and the accessors in range.
pub proof fn lemma_attr_insert(attributes: Seq<(Semantic, u32)>, key: Semantic, value: u32, n: nat)
    requires
        attr_keys_distinct(attributes),
        attr_values_below(attributes, n),
        value < n,
    ensures
        attr_keys_distinct(attr_insert(attributes, key, value)),
        attr_values_below(attr_insert(attributes, key, value), n),
{
    lemma_attr_find(attributes, key);
}

/// Gives `key` the accessor `value`.
pub fn attr_put(attributes: &mut Vec<(Semantic, u32)>, key: Semantic, value: u32)
    ensures
        final(attributes)@ == attr_insert(old(attributes)@, key, value),
{
    let mut i: usize = attributes.len();
    assert(attributes@.take(i as int) =~= attributes@);
    while i > 0
        invariant
            i <= attributes.len(),
            attributes@ == old(attributes)@,
            attr_find(attributes@, key) == attr_find(attributes@.take(i as int), key),
        decreases i,
    {
        assert(attributes@.take(i as int).drop_last() =~= attributes@.take(i as int - 1));
        if attributes[i - 1].0 == key {
            attributes[i - 1] = (key, value);
            return ;
        }
        i = i - 1;
    }
    attributes.push((key, value));
}

/// A node of the scene graph.
#[derive(Clone, Debug)]
pub struct Node {
    pub children: Option<Vec<u32>>,
    pub mesh: Option<u32>,
    pub name: Option<String>,
    pub rotation: Option<[u32; 4]>,
    pub translation: Option<[u32; 3]>,
    pub skin: Option<u32>,
}

/// The items of a list, if there is one.
pub open spec fn list_view(list: Option<Vec<u32>>) -> Option<Seq<u32>> {
    match list {
        Some(v) => Some(v@),
        None => None,
    }
}

/// The characters of a name, if there is one.
pub open spec fn name_view(name: Option<String>) -> Option<Seq<char>> {
    match name {
        Some(s) => Some(s@),
        None => None,
    }
}

/// What a `Node` holds.
pub struct NodeData {
    pub children: Option<Seq<u32>>,
    pub mesh: Option<u32>,
    pub name: Option<Seq<char>>,
    pub rotation: Option<Seq<u32>>,
    pub translation: Option<Seq<u32>>,
    pub skin: Option<u32>,
}

impl View for Node {
    type V = NodeData;

    open spec fn view(&self) -> NodeData {
        NodeData {
            children: list_view(self.children),
            mesh: self.mesh,
            name: name_view(self.name),
            rotation: match self.rotation {
                Some(r) => Some(r@),
                None => None,
            },
            translation: match self.translation {
                Some(t) => Some(t@),
                None => None,
            },
            skin: self.skin,
        }
    }
}

/// The joints of a skinned mesh and their inverse bind matrices.
#[derive(Clone, Debug)]
pub struct Skin {
    pub joints: Vec<u32>,
    pub inverse_bind_matrices: Option<u32>,
}

/// What a `Skin` holds.
pub struct SkinData {
    pub joints: Seq<u32>,
    pub inverse_bind_matrices: Option<u32>,
}

impl View for Skin {
    type V = SkinData;

    open spec fn view(&self) -> SkinData {
        SkinData { joints: self.joints@, inverse_bind_matrices: self.inverse_bind_matrices }
    }
}

/// The property of a node that an animation channel drives.
#[derive(Clone, Copy, Debug, PartialEq, Eq, Structural)]
pub enum Property {
    Rotation,
    Translation,
}

/// Keyframe times and values of an animation, interpolated linearly.
#[derive(Clone, Copy, Debug, PartialEq, Eq, Structural)]
pub struct AnimationSampler {
    pub input: u32,
    pub output: u32,
}

/// The node and property that a sampler drives.
#[derive(Clone, Copy, Debug, PartialEq, Eq, Structural)]
pub struct Channel {
    pub sampler: u32,
    pub node: u32,
    pub path: Property,
}

/// A keyframe animation.
#[derive(Clone, Debug)]
pub struct Animation {
    pub name: String,
    pub samplers: Vec<AnimationSampler>,
    pub channels: Vec<Channel>,
}

/// What an `Animation` holds.
pub struct AnimationData {
    pub name: Seq<char>,
    pub samplers: Seq<AnimationSampler>,
    pub channels: Seq<Channel>,
}

impl View for Animation {
    type V = AnimationData;

    open spec fn view(&self) -> AnimationData {
        AnimationData { name: self.name@, samplers: self.samplers@, channels: self.channels@ }
    }
}

/// An image file.
#[derive(Clone, Debug)]
pub struct Image {
    pub uri: String,
}

impl View for Image {
    type V = Seq<char>;

    open spec fn view(&self) -> Seq<char> {
        self.uri@
    }
}

/// An image and how it is sampled.
#[derive(Clone, Copy, Debug, PartialEq, Eq, Structural)]
pub struct Texture {
    pub sampler: u32,
    pub source: u32,
}

/// An opaque material with an optional base color texture, which uses
/// the first set of texture coordinates.
#[derive(Clone, Copy, Debug, PartialEq, Eq, Structural)]
pub struct Material {
    pub base_color_texture: Option<u32>,
}

/// A list of triangles with its attributes, indices and material.
#[derive(Clone, Debug)]
pub struct Primitive {
    pub attributes: Vec<(Semantic, u32)>,
    pub indices: u32,
    pub material: u32,
}

/// What a `Primitive` holds.
pub struct PrimitiveData {
    pub attributes: Seq<(Semantic, u32)>,
    pub indices: u32,
    pub material: u32,
}

impl View for Primitive {
    type V = PrimitiveData;

    open spec fn view(&self) -> PrimitiveData {
        PrimitiveData {
            attributes: self.attributes@,
            indices: self.indices,
            material: self.material,
        }
    }
}

/// A mesh.
#[derive(Clone, Debug)]
pub struct Mesh {
    pub primitives: Vec<Primitive>,
}

impl View for Mesh {
    type V = Seq<PrimitiveData>;

    open spec fn view(&self) -> Seq<PrimitiveData> {
        views(self.primitives@)
    }
}

/// A scene and its root nodes.
#[derive(Clone, Debug)]
pub struct Scene {
    pub nodes: Vec<u32>,
}

impl View for Scene {
    type V = Seq<u32>;

    open spec fn view(&self) -> Seq<u32> {
        self.nodes@
    }
}

/// A whole document. `samplers` is the number of texture samplers, all of
/// which have default settings.
#[derive(Clone, Debug)]
pub struct Root {
    pub accessors: Vec<Accessor>,
    pub buffers: Vec<Buffer>,
    pub buffer_views: Vec<BufferView>,
    pub meshes: Vec<Mesh>,
    pub nodes: Vec<Node>,
    pub scenes: Vec<Scene>,
    pub skins: Vec<Skin>,
    pub animations: Vec<Animation>,
    pub materials: Vec<Material>,
    pub textures: Vec<Texture>,
    pub images: Vec<Image>,
    pub samplers: u32,
}

} // verus!
