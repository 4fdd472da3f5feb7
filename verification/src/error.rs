//! What can go wrong while a model is decoded or exported.

use vstd::prelude::*;

verus! {

/// Why a byte sequence is not a well-formed model file.
#[derive(Clone, Copy, Debug, PartialEq, Eq, Structural)]
pub enum Malformed {
    /// The file does not start with the five signature bytes.
    Magic,
    /// A read or a skip needs more bytes than are left.
    Truncated,
    /// A pointer leads backwards, or is too small to have a table header
    /// in front of it.
    InvalidOffset,
    /// The submesh table announces a record size other than 28.
    SubmeshStride,
    /// The submesh table has no record.
    NoSubmesh,
    /// The triangle table announces an index size other than 2.
    IndexStride,
    /// The number of triangle indices is no multiple of 3.
    IndexCount,
    /// The joint table announces a record size other than 84.
    JointStride,
    /// A joint name is not tagged with the constant 1.
    NameTag,
    /// A joint name is not valid UTF-8.
    NameEncoding,
    /// The index counts of the submeshes do not add up to the number of
    /// triangle indices.
    IndexCountSum,
    /// A submesh does not have its place in the table as its id.
    SubmeshId,
    /// The joints are to become the first nodes of a document that has
    /// nodes already.
    NodesPresent,
    /// An attribute is supplied with a number of entries other than the
    /// number of vertices.
    AttributeCount,
    /// A length or an index does not fit in the 32 bits that a document
    /// has for it.
    TooLarge,
    /// The vertex block is not `vertex_count * vertex_size` bytes long, or
    /// a vertex layout does not add up to the vertex size.
    VertexLayout,
}

/// What a requested operation needs and the model does not have.
#[derive(Clone, Copy, Debug, PartialEq, Eq, Structural)]
pub enum Missing {
    /// The file has no skin table.
    NoSkin,
    /// An animation track names a joint that the skeleton does not have.
    AnimationTarget,
    /// The model has no joints.
    Joints,
    /// The model has no animation.
    Animation,
    /// The vertex data has no positions.
    Positions,
    /// The transforms handed in are not one for each joint of the file,
    /// or the hierarchy handed in is not that of the model's joints with
    /// every pair done.
    JointTransform,
    /// The joints have not been laid out as nodes.
    JointNodes,
    /// The triangle indices have not been laid out.
    Indices,
    /// The materials have not been laid out.
    Materials,
}

/// Failure of a decoding step.
#[derive(Clone, Copy, Debug, PartialEq, Eq, Structural)]
pub enum RdmError {
    MalformedFormat(Malformed),
    MissingData(Missing),
}

} // verus!
