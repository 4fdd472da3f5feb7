//! Materials and their textures.

use crate::error::{Malformed, RdmError};
use crate::gltf_export::{material_ok, texture_ok, RDGltfBuilder};
use crate::gltf_json::{views, Image, Material, Texture};
use crate::model::RDModell;
use vstd::prelude::*;
use vstd::string::StringExecFns;

verus! {

/// The texture file stems of the model.
pub open spec fn texture_stems(rdm: RDModell) -> Seq<String> {
    match rdm.mat {
        Some(mat) => mat.c_model_diff_tex@,
        None => Seq::empty(),
    }
}

/// Whether there is room for the materials of the model.
pub open spec fn materials_fit(b: RDGltfBuilder) -> bool {
    &&& b.sampler_vec + texture_stems(b.rdm).len() <= u32::MAX
    &&& b.material_vec@.len() + b.rdm.mesh_info@.len() <= u32::MAX
}

/// What laying out the materials does to the builder: every texture
/// stem gets a sampler, an image and a texture, and every submesh a
/// material, which has the texture of the same index where there is one.
pub open spec fn materials_added(old: RDGltfBuilder, new: RDGltfBuilder) -> bool {
    let stems = texture_stems(old.rdm);
    let submeshes = old.rdm.mesh_info@.len();
    &&& new.sampler_vec == old.sampler_vec + stems.len()
    &&& views(new.image_vec@) == views(old.image_vec@) + Seq::new(
        stems.len(),
        |i: int| stems[i]@ + ".png"@,
    )
    &&& new.texture_vec@ == old.texture_vec@ + Seq::new(
        stems.len(),
        |i: int| Texture { sampler: i as u32, source: i as u32 },
    )
    &&& new.material_vec@ == old.material_vec@ + Seq::new(
        submeshes,
        |i: int|
            Material {
                base_color_texture: if i < stems.len() {
                    Some(i as u32)
                } else {
                    None
                },
            },
    )
    &&& new.material_idx is Some
    &&& new.material_idx->Some_0@ == Seq::new(
        submeshes,
        |i: int| (old.material_vec@.len() + i) as u32,
    )
    &&& new == (RDGltfBuilder {
        sampler_vec: new.sampler_vec,
        image_vec: new.image_vec,
        texture_vec: new.texture_vec,
        material_vec: new.material_vec,
        material_idx: new.material_idx,
        ..old
    })
}

impl RDGltfBuilder {
    /// Lays out the materials: a sampler, an image and a texture for each
    /// texture stem of the model, and a material for each submesh. The
    /// material of a submesh has the texture of the same index, where
    /// there is one.
    #[verifier::rlimit(50)]
    pub fn put_material(&mut self) -> (r: Result<(), RdmError>)
        requires
            old(self).wf(),
        ensures
            final(self).wf(),
            materials_fit(*old(self)) ==> r is Ok && materials_added(*old(self), *final(self)),
            !materials_fit(*old(self)) ==> r == Err::<(), RdmError>(
                RdmError::MalformedFormat(Malformed::TooLarge),
            ) && *final(self) == *old(self),
    {
        let stems: usize = match &self.rdm.mat {
            Some(mat) => mat.c_model_diff_tex.len(),
            None => 0,
        };
        let submeshes = self.rdm.mesh_info.len();
        if stems as u64 > (u32::MAX - self.sampler_vec) as u64 || self.material_vec.len() as u64
            > u32::MAX as u64 || submeshes as u64 > u32::MAX as u64 - self.material_vec.len() as u64 {
            return Err(RdmError::MalformedFormat(Malformed::TooLarge));
        }
        let ghost old_images = self.image_vec@;
        let ghost old_textures = self.texture_vec@;
        let ghost old_materials = self.material_vec@;
        let ghost names = texture_stems(self.rdm);
        let mut i: usize = 0;
        while i < stems
            invariant
                i <= stems,
                stems == names.len(),
                names == texture_stems(self.rdm),
                stems <= u32::MAX,
                old(self).wf(),
                old(self).sampler_vec + stems <= u32::MAX,
                self.image_vec@.len() == old_images.len() + i,
                self.texture_vec@.len() == old_textures.len() + i,
                views(self.image_vec@) == views(old_images) + Seq::new(
                    i as nat,
                    |k: int| names[k]@ + ".png"@,
                ),
                self.texture_vec@ == old_textures + Seq::new(
                    i as nat,
                    |k: int| Texture { sampler: k as u32, source: k as u32 },
                ),
                *self == (RDGltfBuilder {
                    image_vec: self.image_vec,
                    texture_vec: self.texture_vec,
                    ..*old(self)
                }),
            decreases stems - i,
        {
            let fname: String = match &self.rdm.mat {
                Some(mat) => mat.c_model_diff_tex[i].clone(),
                None => String::new(),
            };
            let image = Image { uri: fname.concat(".png") };
            let ghost before = self.image_vec@;
            let ghost data = image@;
            self.image_vec.push(image);
            self.texture_vec.push(Texture { sampler: i as u32, source: i as u32 });
            proof {
                assert(views(self.image_vec@) =~= views(before).push(data));
                assert(views(self.image_vec@) =~= views(old_images) + Seq::new(
                    (i + 1) as nat,
                    |k: int| names[k]@ + ".png"@,
                ));
                assert(self.texture_vec@ =~= old_textures + Seq::new(
                    (i + 1) as nat,
                    |k: int| Texture { sampler: k as u32, source: k as u32 },
                ));
            }
            i = i + 1;
        }
        self.sampler_vec = self.sampler_vec + stems as u32;
        proof {
            assert forall|k: int| 0 <= k < self.texture_vec@.len() implies texture_ok(
                #[trigger] self.texture_vec@[k],
                self.image_vec@.len(),
                self.sampler_vec as nat,
            ) by {
                if k < old_textures.len() {
                    assert(self.texture_vec@[k] == old_textures[k]);
                    assert(texture_ok(
                        old_textures[k],
                        old_images.len(),
                        old(self).sampler_vec as nat,
                    ));
                }
            }
            assert forall|k: int| 0 <= k < self.material_vec@.len() implies material_ok(
                #[trigger] self.material_vec@[k],
                self.texture_vec@.len(),
            ) by {
                assert(material_ok(old_materials[k], old_textures.len()));
            }
        }
        let ghost mid = *self;
        let mut material_idx_vec: Vec<u32> = Vec::new();
        let mut j: usize = 0;
        while j < submeshes
            invariant
                j <= submeshes,
                submeshes == old(self).rdm.mesh_info@.len(),
                stems == names.len(),
                mid.wf(),
                old_materials == old(self).material_vec@,
                old_materials.len() + submeshes <= u32::MAX,
                self.material_vec@ == old_materials + Seq::new(
                    j as nat,
                    |k: int|
                        Material {
                            base_color_texture: if k < names.len() {
                                Some(k as u32)
                            } else {
                                None
                            },
                        },
                ),
                material_idx_vec@ == Seq::new(j as nat, |k: int| (old_materials.len() + k) as u32),
                mid.texture_vec@.len() == old(self).texture_vec@.len() + stems,
                forall|k: int|
                    0 <= k < self.material_vec@.len() ==> material_ok(
                        #[trigger] self.material_vec@[k],
                        mid.texture_vec@.len(),
                    ),
                *self == (RDGltfBuilder { material_vec: self.material_vec, ..mid }),
            decreases submeshes - j,
        {
            let itex = if j < stems {
                Some(j as u32)
            } else {
                None
            };
            let ghost before = self.material_vec@;
            material_idx_vec.push(self.material_vec.len() as u32);
            self.material_vec.push(Material { base_color_texture: itex });
            proof {
                assert forall|k: int| 0 <= k < self.material_vec@.len() implies material_ok(
                    #[trigger] self.material_vec@[k],
                    mid.texture_vec@.len(),
                ) by {
                    if k < before.len() {
                        assert(self.material_vec@[k] == before[k]);
                    }
                }
                assert(self.material_vec@ =~= old_materials + Seq::new(
                    (j + 1) as nat,
                    |k: int|
                        Material {
                            base_color_texture: if k < names.len() {
                                Some(k as u32)
                            } else {
                                None
                            },
                        },
                ));
                assert(material_idx_vec@ =~= Seq::new(
                    (j + 1) as nat,
                    |k: int| (old_materials.len() + k) as u32,
                ));
            }
            j = j + 1;
        }
        self.material_idx = Some(material_idx_vec);
        Ok(())
    }
}

} // verus!
