//! Decoder for the RDM binary model format and builder of glTF 2.0
//! documents from the decoded model.
//!
//! A model file is a chain of tables, each found through a pointer and
//! preceded by a header of count and record size. [`model`] decodes it
//! with the forward-only [`cursor`]: submeshes, triangle indices, the
//! block of vertices ([`vertex`]) and, on request, the skeleton.
//! [`gltf_export`] lays the decoded model out as a glTF document
//! ([`gltf_json`]) with its binary blobs ([`blob`]); [`joints`] turns the
//! joints, which the model places in model space, into a hierarchy of
//! nodes.
//!
//! The library does no floating point arithmetic. Single-precision
//! numbers are carried as their bit patterns ([`bits`]); what has to be
//! computed from them is asked of the caller and handed back.
//!
//! The buffers of the `bytes` crate hold the bytes that are read and
//! written; [`buf`] states what the library relies on of them.

pub mod bits;
pub mod blob;
pub mod buf;
pub mod cursor;
pub mod error;
pub mod format;
pub mod gltf_export;
pub mod gltf_json;
pub mod joints;
pub mod model;
pub mod rdm_anim;
pub mod rdm_material;
pub mod submesh;
pub mod text;
pub mod vertex;

pub use crate::error::{Malformed, Missing, RdmError};
pub use crate::model::{JointRecord, JointTransform, RDJoint, RDModell, Triangle};
pub use crate::submesh::MeshInstance;
pub use crate::vertex::{B4b, C4c, G4b, I4b, N4b, P4h, T2h, UniqueIdentifier, VertexFormat2, W4b};
