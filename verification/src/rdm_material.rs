//! References to the textures of a model.

use vstd::prelude::*;

verus! {

/// The diffuse textures of a model, one file stem for each, in the order
/// of the submeshes that they belong to.
#[derive(Clone, Debug)]
pub struct RDMaterial {
    pub c_model_diff_tex: Vec<String>,
}

} // verus!
