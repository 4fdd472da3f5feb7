use rdm4lib::bits::{negate, MINUS_ONE, ONE, ZERO};
use rdm4lib::blob::{to_padded_byte_vector, RDGltf, MAX_BLOB};
use rdm4lib::gltf_export::{Computed, JointOption, RDGltfBuilder};
use rdm4lib::gltf_json::{
    attr_put, AnimationSampler, BufferView, Channel, ComponentType, Material, Property, Semantic,
    Target, Texture, Type,
};
use rdm4lib::joints::JointFlattening;
use rdm4lib::model::{JointTransform, RDJoint, RDModell};
use rdm4lib::rdm_anim::{Frame, FrameCollection, RDAnim};
use rdm4lib::rdm_material::RDMaterial;
use rdm4lib::vertex::UniqueIdentifier;
use rdm4lib::{Malformed, Missing, RdmError};

fn put_u32(v: &mut Vec<u8>, at: usize, x: u32) {
    v[at..at + 4].copy_from_slice(&x.to_le_bytes());
}

/// A model file with the given vertex block, submeshes (start, count, id),
/// triangles and joints (name, parent).
fn file(
    vertex_size: usize,
    block: &[u8],
    submeshes: &[(u32, u32, u32)],
    triangles: &[[u16; 3]],
    joints: &[(&str, u8)],
) -> Vec<u8> {
    let table = 80;
    let vertex_header = table + 8 + 28 * submeshes.len();
    let triangle_header = vertex_header + 8 + block.len();
    let mut v = vec![0u8; triangle_header + 8];
    v[0..5].copy_from_slice(&[0x52, 0x44, 0x4D, 0x01, 0x14]);
    put_u32(&mut v, 32, 52);
    put_u32(&mut v, 44, 1);
    put_u32(&mut v, 48, 28);
    put_u32(&mut v, 52 + 12, (vertex_header + 8) as u32);
    put_u32(&mut v, 52 + 16, (triangle_header + 8) as u32);
    put_u32(&mut v, 52 + 20, (table + 8) as u32);
    put_u32(&mut v, table, submeshes.len() as u32);
    put_u32(&mut v, table + 4, 28);
    for (i, m) in submeshes.iter().enumerate() {
        let at = table + 8 + 28 * i;
        put_u32(&mut v, at, m.0);
        put_u32(&mut v, at + 4, m.1);
        put_u32(&mut v, at + 8, m.2);
    }
    put_u32(&mut v, vertex_header, (block.len() / vertex_size) as u32);
    put_u32(&mut v, vertex_header + 4, vertex_size as u32);
    v[vertex_header + 8..vertex_header + 8 + block.len()].copy_from_slice(block);
    put_u32(&mut v, triangle_header, 3 * triangles.len() as u32);
    put_u32(&mut v, triangle_header + 4, 2);
    for t in triangles {
        for i in t {
            v.extend_from_slice(&i.to_le_bytes());
        }
    }
    if joints.is_empty() {
        return v;
    }
    while v.len() % 4 != 0 {
        v.push(0);
    }
    let skin = v.len();
    put_u32(&mut v, 40, skin as u32);
    let records = skin + 12;
    let names = records + 84 * joints.len();
    v.resize(names, 0);
    put_u32(&mut v, skin, records as u32);
    put_u32(&mut v, skin + 4, joints.len() as u32);
    put_u32(&mut v, skin + 8, 84);
    let mut name_at = names;
    for (i, j) in joints.iter().enumerate() {
        let at = records + 84 * i;
        put_u32(&mut v, at, (name_at + 8) as u32);
        v[at + 32] = j.1;
        v.extend_from_slice(&(j.0.len() as u32).to_le_bytes());
        v.extend_from_slice(&1u32.to_le_bytes());
        v.extend_from_slice(j.0.as_bytes());
        name_at += 8 + j.0.len();
    }
    v
}

fn bits3(a: [f32; 3]) -> [u32; 3] {
    a.map(f32::to_bits)
}

fn transform(x: f32) -> JointTransform {
    JointTransform { translation: bits3([x, 0.5, -2.0]), rotation: [0, 0, ZERO, ONE] }
}

/// Three vertices of eight bytes, one submesh, one triangle.
fn minimal_model() -> RDModell {
    let block: Vec<u8> = (0u8..24).collect();
    let mut rdm = RDModell::new(file(8, &block, &[(0, 3, 0)], &[[0, 1, 2]], &[])).unwrap();
    rdm.vertex.set_layout(vec![UniqueIdentifier::P4h]).unwrap();
    rdm
}

/// Two vertices with position, normal, tangent, texture coordinate, joint
/// indices and weights; two submeshes; two triangles; and, on request, a
/// skeleton of four joints.
fn full_model(skeleton: bool) -> RDModell {
    let mut block = Vec::new();
    for v in 0u8..2 {
        block.extend_from_slice(&[0; 8]);
        block.extend_from_slice(&[127, 255, 0, 9]);
        block.extend_from_slice(&[1, 2, 3, v]);
        block.extend_from_slice(&[0; 4]);
        block.extend_from_slice(&[7, 8, 9, 10 + v]);
        block.extend_from_slice(&[200, 0, 55 * v, 0]);
    }
    let joints: &[(&str, u8)] =
        if skeleton { &[("hip", 255), ("knee", 0), ("foot", 1), ("lost", 9)] } else { &[] };
    let bytes = file(28, &block, &[(3, 3, 1), (0, 3, 0)], &[[0, 1, 0], [1, 0, 1]], joints);
    let mut rdm = RDModell::new(bytes).unwrap();
    rdm.vertex
        .set_layout(vec![
            UniqueIdentifier::P4h,
            UniqueIdentifier::N4b,
            UniqueIdentifier::G4b,
            UniqueIdentifier::T2h,
            UniqueIdentifier::I4b,
            UniqueIdentifier::W4b,
        ])
        .unwrap();
    if skeleton {
        rdm.add_skin(&vec![transform(0.0), transform(1.0), transform(2.0), transform(3.0)])
            .unwrap();
    }
    rdm
}

fn computed_for(vertices: usize, joints: usize, sets: usize) -> Computed {
    Computed {
        positions: (0..vertices).map(|v| bits3([v as f32, 1.0, -1.0])).collect(),
        position_min: bits3([0.0, 1.0, -1.0]),
        position_max: bits3([vertices as f32 - 1.0, 1.0, -1.0]),
        texcoords: (0..vertices).map(|v| [(v as f32).to_bits(), 0.25f32.to_bits()]).collect(),
        normals: (0..vertices).map(|_| bits3([0.0, 1.0, 0.0])).collect(),
        tangents: (0..vertices).map(|_| bits3([1.0, 0.0, 0.0])).collect(),
        weights: (0..sets)
            .map(|_| (0..vertices).map(|_| [ONE, ZERO, ZERO, ZERO]).collect())
            .collect(),
        inverse_bind: (0..joints)
            .map(|j| {
                let mut m = [0u32; 16];
                for (k, x) in m.iter_mut().enumerate() {
                    *x = ((16 * j + k) as f32).to_bits();
                }
                m
            })
            .collect(),
        time_max: 2.5f32.to_bits(),
    }
}

fn floats(bytes: &[u8]) -> Vec<f32> {
    bytes.chunks(4).map(|c| f32::from_le_bytes([c[0], c[1], c[2], c[3]])).collect()
}

fn flatten(joints: &Vec<RDJoint>, cfg: JointOption) -> JointFlattening {
    let mut f = JointFlattening::new(joints, cfg).unwrap();
    while let Some((parent, child)) = f.pending() {
        // Stands for the combination of the two transforms.
        let x = f32::from_bits(child.translation[0]) - f32::from_bits(parent.translation[0]);
        f.resolve(JointTransform {
            translation: bits3([x + 100.0, 0.0, 0.0]),
            rotation: child.rotation,
        });
    }
    f
}

#[test]
fn sign_flip_is_negation() {
    for x in [0.0f32, -0.0, 1.0, -1.0, 3.5e-12, -7.25e20, f32::INFINITY, f32::MIN_POSITIVE] {
        assert_eq!(negate(x.to_bits()), (-x).to_bits());
        assert_eq!(negate(negate(x.to_bits())), x.to_bits());
    }
    assert_eq!(negate(f32::NAN.to_bits()), (-f32::NAN).to_bits());
    assert_eq!(f32::from_bits(ONE), 1.0);
    assert_eq!(f32::from_bits(MINUS_ONE), -1.0);
    assert_eq!(f32::from_bits(ZERO), 0.0);
    assert_eq!(negate(ONE), MINUS_ONE);
}

#[test]
fn blobs_are_padded_to_four_bytes() {
    assert_eq!(to_padded_byte_vector(vec![]), Vec::<u8>::new());
    assert_eq!(to_padded_byte_vector(vec![1]), vec![1, 0, 0, 0]);
    assert_eq!(to_padded_byte_vector(vec![1, 2]), vec![1, 2, 0, 0]);
    assert_eq!(to_padded_byte_vector(vec![1, 2, 3]), vec![1, 2, 3, 0]);
    assert_eq!(to_padded_byte_vector(vec![1, 2, 3, 4]), vec![1, 2, 3, 4]);
    assert_eq!(to_padded_byte_vector(vec![9; 6]), vec![9, 9, 9, 9, 9, 9, 0, 0]);
}

#[test]
fn buffers_are_numbered_in_push_order() {
    let mut doc = RDGltf::new();
    for (k, len) in [0usize, 1, 4, 6, 7, 8, 13, 2, 3, 5, 40, 1].into_iter().enumerate() {
        let r = doc.push_buffer(vec![0xAB; len], len as u32).unwrap();
        assert_eq!(r.idx as usize, k);
        assert_eq!(r.num as usize, len);
        assert_eq!(r.len % 4, 0);
        assert_eq!(r.len as usize, (len + 3) / 4 * 4);
        assert_eq!(r.file_name, format!("buffer{}.bin", k));
        assert_eq!(doc.buffers.len(), k + 1);
        assert_eq!(doc.buffers[k].len(), r.len as usize);
        assert_eq!(&doc.buffers[k][..len], &vec![0xAB; len][..]);
    }
    assert!(doc.root.is_none());
}

#[test]
fn buffer_files_are_named_by_index() {
    assert_eq!(RDGltf::file_name(0), "buffer0.bin");
    assert_eq!(RDGltf::file_name(7), "buffer7.bin");
    assert_eq!(RDGltf::file_name(10), "buffer10.bin");
    assert_eq!(RDGltf::file_name(4096), "buffer4096.bin");
}

#[test]
fn oversized_blob_is_refused() {
    let mut doc = RDGltf::new();
    doc.push_buffer(vec![1, 2, 3], 3).unwrap();
    let r = doc.push_buffer(vec![0; MAX_BLOB + 1], 0);
    assert_eq!(r.err(), Some(RdmError::MalformedFormat(Malformed::TooLarge)));
    assert_eq!(doc.buffers.len(), 1);
}

#[test]
fn attribute_map_replaces_or_appends() {
    let mut m = Vec::new();
    attr_put(&mut m, Semantic::Positions, 0);
    attr_put(&mut m, Semantic::Joints(0), 4);
    attr_put(&mut m, Semantic::Joints(1), 6);
    attr_put(&mut m, Semantic::Joints(0), 9);
    assert_eq!(
        m,
        vec![(Semantic::Positions, 0), (Semantic::Joints(0), 9), (Semantic::Joints(1), 6)]
    );
}

#[test]
fn minimal_model_exports_two_buffers() {
    let rdm = minimal_model();
    assert_eq!(rdm.mesh_info.len(), 1);
    assert_eq!(rdm.triangle_indices.len(), 1);
    assert!(rdm.joints.is_none());
    let c = computed_for(3, 0, 0);
    let doc = RDGltfBuilder::from(rdm, &c, None).unwrap().build().unwrap();
    let root = doc.root.as_ref().unwrap();

    assert_eq!(doc.buffers.len(), 2);
    assert_eq!(floats(&doc.buffers[0]), vec![0.0, 1.0, -1.0, 1.0, 1.0, -1.0, 2.0, 1.0, -1.0]);
    assert_eq!(doc.buffers[1], vec![0, 0, 1, 0, 2, 0, 0, 0]);

    assert_eq!(root.buffers.len(), 2);
    assert_eq!(root.buffers[0].byte_length, 36);
    assert_eq!(root.buffers[0].uri, "buffer0.bin");
    assert_eq!(root.buffers[1].byte_length, 8);
    assert_eq!(root.buffers[1].uri, "buffer1.bin");

    assert_eq!(
        root.buffer_views,
        vec![
            BufferView {
                buffer: 0,
                byte_length: 36,
                byte_offset: None,
                target: Some(Target::ArrayBuffer)
            },
            BufferView {
                buffer: 1,
                byte_length: 8,
                byte_offset: None,
                target: Some(Target::ElementArrayBuffer)
            },
        ]
    );

    assert_eq!(root.accessors.len(), 2);
    let p = &root.accessors[0];
    assert_eq!((p.buffer_view, p.byte_offset, p.count), (0, 0, 3));
    assert_eq!((p.component_type, p.type_), (ComponentType::F32, Type::Vec3));
    assert_eq!(p.min, Some(bits3([0.0, 1.0, -1.0]).to_vec()));
    assert_eq!(p.max, Some(bits3([2.0, 1.0, -1.0]).to_vec()));
    let i = &root.accessors[1];
    assert_eq!((i.buffer_view, i.byte_offset, i.count), (1, 0, 3));
    assert_eq!((i.component_type, i.type_), (ComponentType::U16, Type::Scalar));
    assert_eq!((i.min.clone(), i.max.clone()), (None, None));

    assert_eq!(root.meshes.len(), 1);
    assert_eq!(root.meshes[0].primitives.len(), 1);
    let prim = &root.meshes[0].primitives[0];
    assert_eq!(prim.attributes, vec![(Semantic::Positions, 0)]);
    assert_eq!((prim.indices, prim.material), (1, 0));
    assert_eq!(root.materials, vec![Material { base_color_texture: None }]);
    assert!(root.textures.is_empty() && root.images.is_empty());
    assert_eq!(root.samplers, 0);

    assert_eq!(root.nodes.len(), 1);
    assert_eq!(root.nodes[0].mesh, Some(0));
    assert!(root.nodes[0].children.is_none() && root.nodes[0].skin.is_none());
    assert_eq!(root.scenes.len(), 1);
    assert_eq!(root.scenes[0].nodes, vec![0]);
    assert!(root.skins.is_empty() && root.animations.is_empty());
}

#[test]
fn positions_are_required() {
    let block: Vec<u8> = (0u8..24).collect();
    let mut rdm = RDModell::new(file(8, &block, &[(0, 3, 0)], &[[0, 1, 2]], &[])).unwrap();
    let c = computed_for(3, 0, 0);
    let mut b = RDGltfBuilder::new(rdm);
    assert_eq!(
        b.put_vertex(&c.positions, c.position_min, c.position_max),
        Err(RdmError::MissingData(Missing::Positions))
    );
    assert!(b.buffers.is_empty() && b.accessors.is_empty() && b.attr_map.is_empty());

    rdm = minimal_model();
    assert_eq!(
        RDGltfBuilder::from(rdm, &computed_for(2, 0, 0), None).err(),
        Some(RdmError::MalformedFormat(Malformed::AttributeCount))
    );
}

#[test]
fn absent_attributes_are_skipped() {
    let mut b = RDGltfBuilder::new(minimal_model());
    let c = computed_for(3, 0, 0);
    assert_eq!(b.put_tex(&c.texcoords), Ok(()));
    assert_eq!(b.put_normal(&c.normals), Ok(()));
    assert_eq!(b.put_tangent(&vec![]), Ok(()));
    assert_eq!(b.put_joint_weight(true, &vec![]), Ok(()));
    assert!(b.buffers.is_empty() && b.buffer_views.is_empty() && b.accessors.is_empty());
    assert!(b.attr_map.is_empty() && b.obj.buffers.is_empty());
}

#[test]
fn every_submesh_gets_an_index_accessor() {
    let mut b = RDGltfBuilder::new(full_model(false));
    b.put_idx().unwrap();
    assert_eq!(b.obj.buffers, vec![vec![0, 0, 1, 0, 0, 0, 1, 0, 0, 0, 1, 0]]);
    assert_eq!(b.buffers[0].byte_length, 12);
    assert_eq!(b.idx, Some(vec![0, 1]));
    // The submeshes are in ascending order of id.
    assert_eq!((b.accessors[0].byte_offset, b.accessors[0].count), (0, 3));
    assert_eq!((b.accessors[1].byte_offset, b.accessors[1].count), (6, 3));
    assert_eq!(b.accessors[1].buffer_view, 0);
    assert_eq!(b.accessors[1].component_type, ComponentType::U16);
}

#[test]
fn index_counts_have_to_add_up() {
    let block: Vec<u8> = (0u8..24).collect();
    let bytes = file(8, &block, &[(0, 3, 0), (3, 2, 1)], &[[0, 1, 2], [2, 1, 0]], &[]);
    let mut b = RDGltfBuilder::new(RDModell::new(bytes).unwrap());
    assert_eq!(b.put_idx(), Err(RdmError::MalformedFormat(Malformed::IndexCountSum)));
    assert!(b.buffers.is_empty() && b.obj.buffers.is_empty() && b.idx.is_none());

    let bytes = file(8, &block, &[(0x8000_0000, 3, 0)], &[[0, 1, 2]], &[]);
    let mut b = RDGltfBuilder::new(RDModell::new(bytes).unwrap());
    assert_eq!(b.put_idx(), Err(RdmError::MalformedFormat(Malformed::TooLarge)));
}

#[test]
fn vertex_attributes_are_laid_out_in_order() {
    let c = computed_for(2, 0, 1);
    let b = RDGltfBuilder::from(full_model(false), &c, None).unwrap();
    assert_eq!(b.obj.buffers.len(), 5);
    assert_eq!(b.buffers.len(), 5);
    assert_eq!(
        b.attr_map,
        vec![
            (Semantic::Positions, 0),
            (Semantic::TexCoords(0), 3),
            (Semantic::Normals, 4),
            (Semantic::Tangents, 5),
        ]
    );
    assert_eq!(b.idx, Some(vec![1, 2]));
    assert_eq!(floats(&b.obj.buffers[2]), vec![0.0, 0.25, 1.0, 0.25]);
    assert_eq!(floats(&b.obj.buffers[3]), vec![0.0, 1.0, 0.0, 0.0, 1.0, 0.0]);
    // The fourth byte of the stored tangent is 0 for the first vertex and
    // 1 for the second.
    assert_eq!(floats(&b.obj.buffers[4]), vec![1.0, 0.0, 0.0, -1.0, 1.0, 0.0, 0.0, 1.0]);
    assert_eq!(b.accessors[3].type_, Type::Vec2);
    assert_eq!(b.accessors[4].type_, Type::Vec3);
    assert_eq!(b.accessors[5].type_, Type::Vec4);
    for (k, a) in b.accessors.iter().enumerate() {
        assert_eq!(a.byte_offset, if k == 2 { 6 } else { 0 });
        assert_eq!(a.count, if k == 1 || k == 2 { 3 } else { 2 });
    }
    for (k, buffer) in b.buffers.iter().enumerate() {
        assert_eq!(buffer.uri, format!("buffer{}.bin", k));
        assert_eq!(buffer.byte_length as usize, b.obj.buffers[k].len());
    }
    assert!(b.nodes.is_empty() && b.skin.is_none());
}

#[test]
fn materials_follow_the_submeshes() {
    let mut rdm = full_model(false);
    rdm.mat = Some(RDMaterial { c_model_diff_tex: vec!["wall_diff".to_string()] });
    let mut b = RDGltfBuilder::new(rdm);
    b.put_material().unwrap();
    assert_eq!(b.sampler_vec, 1);
    assert_eq!(b.image_vec.len(), 1);
    assert_eq!(b.image_vec[0].uri, "wall_diff.png");
    assert_eq!(b.texture_vec, vec![Texture { sampler: 0, source: 0 }]);
    assert_eq!(
        b.material_vec,
        vec![Material { base_color_texture: Some(0) }, Material { base_color_texture: None }]
    );
    assert_eq!(b.material_idx, Some(vec![0, 1]));

    // More textures than submeshes: the submeshes have the first ones.
    let mut rdm = minimal_model();
    rdm.mat = Some(RDMaterial { c_model_diff_tex: vec!["a".to_string(), "b".to_string()] });
    let mut b = RDGltfBuilder::new(rdm);
    b.put_material().unwrap();
    assert_eq!(b.image_vec.len(), 2);
    assert_eq!(b.image_vec[1].uri, "b.png");
    assert_eq!(b.texture_vec[1], Texture { sampler: 1, source: 1 });
    assert_eq!(b.material_vec, vec![Material { base_color_texture: Some(0) }]);
    assert_eq!(b.sampler_vec, 2);
}

#[test]
fn hierarchy_follows_the_parents() {
    let rdm = full_model(true);
    let joints = rdm.joints.as_ref().unwrap();
    let f = JointFlattening::new(joints, JointOption::ResolveParentNode).unwrap();
    assert_eq!(f.parents, vec![255, 0, 1, 9]);
    assert_eq!(f.roots, vec![0]);
    assert_eq!(f.children, vec![Some(vec![1]), Some(vec![2]), None, None]);
    assert_eq!(f.plan, vec![(0, 1), (1, 2)]);
    assert_eq!(f.remaining, 2);
    assert_eq!(f.transforms, f.global);
    assert_eq!(f.transforms[2], transform(2.0));
}

#[test]
fn joints_may_come_before_their_parents() {
    let j = |name: &str, parent: u8| RDJoint {
        name: name.to_string(),
        nameptr: 0,
        transition: [0; 3],
        quaternion: [0; 4],
        parent,
    };
    // Joint 0 hangs below joint 2, which comes later and is a root; joint
    // 1 hangs below joint 0, which gets its place only in the first
    // search, so joint 1 is found in the second.
    let joints = vec![j("a", 2), j("b", 0), j("c", 255), j("d", 2), j("e", 3)];
    let f = JointFlattening::new(&joints, JointOption::ResolveParentNode).unwrap();
    assert_eq!(f.roots, vec![2]);
    assert_eq!(f.plan, vec![(2, 0), (2, 3), (3, 4), (0, 1)]);
    assert_eq!(f.children, vec![Some(vec![1]), None, Some(vec![0, 3]), Some(vec![4]), None]);

    // Joints that hang below no root have no place: a joint below
    // itself, two joints below each other, a joint below a joint that is
    // not there, and a joint below one of these.
    let joints = vec![j("a", 0), j("b", 2), j("c", 1), j("d", 77), j("e", 3), j("f", 255)];
    let f = JointFlattening::new(&joints, JointOption::ResolveParentNode).unwrap();
    assert_eq!(f.roots, vec![5]);
    assert!(f.plan.is_empty());
    assert_eq!(f.children, vec![None, None, None, None, None, None]);
    assert_eq!(f.pending(), None);
}

#[test]
fn pairs_are_taken_from_the_end_with_untouched_parents() {
    let rdm = full_model(true);
    let joints = rdm.joints.as_ref().unwrap();
    let mut f = JointFlattening::new(joints, JointOption::ResolveParentNode).unwrap();
    assert_eq!(f.pending(), Some((transform(1.0), transform(2.0))));
    f.resolve(transform(20.0));
    assert_eq!(f.plan, vec![(0, 1), (1, 2)]);
    assert_eq!(f.remaining, 1);
    assert_eq!(f.transforms[2], transform(20.0));
    // The parent of the next pair was not the child of the pair before.
    assert_eq!(f.pending(), Some((transform(0.0), transform(1.0))));
    f.resolve(transform(10.0));
    assert_eq!(f.pending(), None);
    assert_eq!(
        f.transforms,
        vec![transform(0.0), transform(10.0), transform(20.0), transform(3.0)]
    );
    assert_eq!(f.global[1], transform(1.0));
}

#[test]
fn all_roots_keep_their_transforms() {
    let rdm = full_model(true);
    let joints = rdm.joints.as_ref().unwrap();
    let f = JointFlattening::new(joints, JointOption::ResolveAllRoot).unwrap();
    assert!(f.plan.is_empty());
    assert_eq!(f.remaining, 0);
    assert_eq!(f.pending(), None);
    assert_eq!(f.roots, vec![0, 1, 2, 3]);
    assert_eq!(f.children, vec![None, None, None, None]);

    let c = computed_for(2, 4, 1);
    let mut b = RDGltfBuilder::new(rdm);
    b.put_joint_nodes(&f, &c.inverse_bind).unwrap();
    assert_eq!(b.nodes.len(), 5);
    for (i, name) in ["hip", "knee", "foot", "lost"].into_iter().enumerate() {
        assert_eq!(b.nodes[i].name.as_deref(), Some(name));
        assert_eq!(b.nodes[i].translation, Some(transform(i as f32).translation));
        assert_eq!(b.nodes[i].rotation, Some(transform(i as f32).rotation));
        assert!(b.nodes[i].children.is_none());
        assert!(b.nodes[i].mesh.is_none() && b.nodes[i].skin.is_none());
    }
    assert_eq!(b.nodes[4].children, Some(vec![0, 1, 2, 3]));
}

#[test]
fn skeleton_becomes_nodes_and_skin() {
    let rdm = full_model(true);
    let f = flatten(rdm.joints.as_ref().unwrap(), JointOption::ResolveParentNode);
    let c = computed_for(2, 4, 1);
    let mut b = RDGltfBuilder::new(rdm);
    b.put_joint_nodes(&f, &c.inverse_bind).unwrap();

    assert_eq!(b.obj.buffers.len(), 1);
    let m = floats(&b.obj.buffers[0]);
    assert_eq!(m.len(), 64);
    assert_eq!(&m[0..3], &[0.0, 1.0, 2.0]);
    assert_eq!(m[14], 14.0);
    // The last number of every matrix is 1, whatever was computed.
    assert_eq!((m[15], m[31], m[47], m[63]), (1.0, 1.0, 1.0, 1.0));
    assert_eq!(m[16], 16.0);
    assert_eq!(b.buffers[0].byte_length, 256);
    assert_eq!(
        b.buffer_views,
        vec![BufferView { buffer: 0, byte_length: 256, byte_offset: None, target: None }]
    );
    assert_eq!((b.accessors[0].count, b.accessors[0].type_), (4, Type::Mat4));

    assert_eq!(b.nodes.len(), 5);
    assert_eq!(b.nodes[0].children, Some(vec![1]));
    assert_eq!(b.nodes[1].children, Some(vec![2]));
    assert_eq!(b.nodes[2].children, None);
    assert_eq!(b.nodes[0].translation, Some(transform(0.0).translation));
    assert_eq!(b.nodes[1].translation, Some(bits3([101.0, 0.0, 0.0])));
    assert_eq!(b.nodes[2].translation, Some(bits3([101.0, 0.0, 0.0])));
    assert_eq!(b.nodes[3].translation, Some(transform(3.0).translation));
    let armature = &b.nodes[4];
    assert_eq!(armature.name.as_deref(), Some("armature"));
    assert_eq!(armature.children, Some(vec![0]));
    assert_eq!((armature.mesh, armature.skin), (Some(0), Some(0)));
    assert!(armature.translation.is_none() && armature.rotation.is_none());
    let skin = b.skin.as_ref().unwrap();
    assert_eq!(skin.joints, vec![0, 1, 2, 3]);
    assert_eq!(skin.inverse_bind_matrices, Some(0));
}

#[test]
fn all_root_export_keeps_every_transform() {
    let rdm = full_model(true);
    let f = flatten(rdm.joints.as_ref().unwrap(), JointOption::ResolveAllRoot);
    let c = computed_for(2, 4, 1);
    let doc = RDGltfBuilder::from(rdm, &c, Some(f)).unwrap().build().unwrap();
    let root = doc.root.unwrap();
    for i in 0..4 {
        assert_eq!(root.nodes[i].translation, Some(transform(i as f32).translation));
        assert_eq!(root.nodes[i].rotation, Some(transform(i as f32).rotation));
        assert_eq!(root.nodes[i].children, None);
    }
    assert_eq!(root.nodes[4].children, Some(vec![0, 1, 2, 3]));
    assert_eq!(root.scenes[0].nodes, vec![4]);
}

#[test]
fn skeleton_has_to_be_the_flattened_one() {
    let rdm = full_model(true);
    let joints = rdm.joints.as_ref().unwrap();
    let unfinished = JointFlattening::new(joints, JointOption::ResolveParentNode).unwrap();
    let done = flatten(joints, JointOption::ResolveParentNode);
    let mut other_joints = full_model(true).joints.unwrap();
    other_joints[2].transition = bits3([9.0, 9.0, 9.0]);
    let other = flatten(&other_joints, JointOption::ResolveParentNode);
    let c = computed_for(2, 4, 1);
    let missing = Err(RdmError::MissingData(Missing::JointTransform));

    let mut b = RDGltfBuilder::new(rdm);
    assert_eq!(b.put_joint_nodes(&unfinished, &c.inverse_bind), missing);
    assert_eq!(b.put_joint_nodes(&other, &c.inverse_bind), missing);
    assert_eq!(b.put_joint_nodes(&done, &computed_for(2, 3, 1).inverse_bind), missing);
    assert!(b.nodes.is_empty() && b.buffers.is_empty() && b.skin.is_none());
    assert_eq!(b.put_joint_nodes(&done, &c.inverse_bind), Ok(()));
    assert_eq!(
        b.put_joint_nodes(&done, &c.inverse_bind),
        Err(RdmError::MalformedFormat(Malformed::NodesPresent))
    );

    let mut b = RDGltfBuilder::new(full_model(false));
    assert_eq!(
        b.put_joint_nodes(&done, &c.inverse_bind),
        Err(RdmError::MissingData(Missing::Joints))
    );
    assert_eq!(
        RDGltfBuilder::from(full_model(true), &c, None).err(),
        Some(RdmError::MissingData(Missing::JointTransform))
    );
}

#[test]
fn slots_without_weight_name_joint_zero() {
    // Stored: joints (7, 8, 9, 10 + v), weights (200, 0, 55 v, 0).
    let c = computed_for(2, 0, 1);
    let mut b = RDGltfBuilder::new(full_model(false));
    b.put_joint_weight(true, &c.weights).unwrap();
    let blob = &b.obj.buffers[0];
    assert_eq!(blob.len(), 2 * 16 + 2 * 4 + 4);
    assert_eq!(floats(&blob[0..32]), vec![1.0, 0.0, 0.0, 0.0, 1.0, 0.0, 0.0, 0.0]);
    assert_eq!(&blob[32..40], &[7, 0, 0, 0, 7, 0, 9, 0]);
    assert_eq!(&blob[40..44], &[0, 0, 0, 0]);

    let mut b = RDGltfBuilder::new(full_model(false));
    b.put_joint_weight(false, &c.weights).unwrap();
    assert_eq!(&b.obj.buffers[0][32..40], &[7, 8, 9, 10, 7, 8, 9, 11]);

    assert_eq!(b.buffers[0].byte_length, 44);
    assert_eq!(
        b.buffer_views,
        vec![
            BufferView { buffer: 0, byte_length: 8, byte_offset: Some(32), target: None },
            BufferView { buffer: 0, byte_length: 32, byte_offset: None, target: None },
        ]
    );
    assert_eq!(b.accessors.len(), 2);
    assert_eq!((b.accessors[0].buffer_view, b.accessors[0].count), (0, 2));
    assert_eq!((b.accessors[0].component_type, b.accessors[0].type_), (ComponentType::U8, Type::Vec4));
    assert_eq!((b.accessors[1].buffer_view, b.accessors[1].count), (1, 2));
    assert_eq!((b.accessors[1].component_type, b.accessors[1].type_), (ComponentType::F32, Type::Vec4));
    assert_eq!(b.attr_map, vec![(Semantic::Joints(0), 0), (Semantic::Weights(0), 1)]);
}

#[test]
fn joints_without_weights_hang_on_the_first_joint() {
    let block: Vec<u8> = vec![5, 6, 7, 8, 1, 2, 3, 4, 9, 9, 9, 9];
    let mut rdm = RDModell::new(file(4, &block, &[(0, 3, 0)], &[[0, 1, 2]], &[])).unwrap();
    rdm.vertex.set_layout(vec![UniqueIdentifier::I4b]).unwrap();
    let c = computed_for(3, 0, 1);
    let mut b = RDGltfBuilder::new(rdm);
    b.put_joint_weight(true, &c.weights).unwrap();
    assert_eq!(&b.obj.buffers[0][48..60], &[5, 0, 0, 0, 1, 0, 0, 0, 9, 0, 0, 0]);
    assert_eq!(&b.obj.buffers[0][60..], &[0, 0, 0, 0]);
}

#[test]
fn weights_have_to_cover_every_set_and_vertex() {
    let count = Err(RdmError::MalformedFormat(Malformed::AttributeCount));
    let mut b = RDGltfBuilder::new(full_model(false));
    assert_eq!(b.put_joint_weight(true, &vec![]), count);
    assert_eq!(b.put_joint_weight(true, &computed_for(2, 0, 2).weights), count);
    assert_eq!(b.put_joint_weight(true, &computed_for(3, 0, 1).weights), count);
    assert!(b.buffers.is_empty() && b.attr_map.is_empty());
}

fn animation() -> RDAnim {
    let frame = |t: f32| Frame {
        rotation: [0.1f32, 0.2, 0.3, t].map(f32::to_bits),
        translation: bits3([t, 2.0 * t, 3.0 * t]),
        time: t.to_bits(),
    };
    RDAnim {
        time_max: 2500,
        name: "walk".to_string(),
        anim_vec: vec![
            FrameCollection { name: "foot".to_string(), frames: vec![frame(0.5), frame(1.0)] },
            FrameCollection { name: "hip".to_string(), frames: vec![frame(2.0)] },
        ],
    }
}

/// A builder for the model with skeleton and animation, with the joints
/// laid out as nodes.
fn builder_with_joint_nodes(rdm: RDModell) -> RDGltfBuilder {
    let f = flatten(rdm.joints.as_ref().unwrap(), JointOption::ResolveParentNode);
    let c = computed_for(2, rdm.joints.as_ref().unwrap().len(), 1);
    let mut b = RDGltfBuilder::new(rdm);
    b.put_joint_nodes(&f, &c.inverse_bind).unwrap();
    b
}

#[test]
fn animation_shares_one_buffer() {
    let mut rdm = full_model(true);
    rdm.add_anim(animation());
    let mut b = builder_with_joint_nodes(rdm);
    b.put_rdm_anim(2.5f32.to_bits()).unwrap();

    // Buffer 0, view 0 and accessor 0 hold the inverse bind matrices.
    assert_eq!(b.obj.buffers.len(), 2);
    let blob = floats(&b.obj.buffers[1]);
    assert_eq!(b.buffers[1].byte_length, 96);
    assert_eq!(b.buffers[1].uri, "buffer1.bin");
    // Rotations of all tracks, w with its sign flipped.
    assert_eq!(
        &blob[0..12],
        &[0.1, 0.2, 0.3, -0.5, 0.1, 0.2, 0.3, -1.0, 0.1, 0.2, 0.3, -2.0]
    );
    // Translations of all tracks.
    assert_eq!(&blob[12..21], &[0.5, 1.0, 1.5, 1.0, 2.0, 3.0, 2.0, 4.0, 6.0]);
    // Times of all tracks.
    assert_eq!(&blob[21..24], &[0.5, 1.0, 2.0]);

    let view = |len: u32, at: u32| BufferView {
        buffer: 1,
        byte_length: len,
        byte_offset: Some(at),
        target: None,
    };
    assert_eq!(
        b.buffer_views[1..],
        vec![view(32, 0), view(24, 48), view(8, 84), view(16, 32), view(12, 72), view(4, 92)]
    );
    let types: Vec<Type> = b.accessors[1..].iter().map(|a| a.type_).collect();
    assert_eq!(
        types,
        vec![Type::Vec4, Type::Vec3, Type::Scalar, Type::Vec4, Type::Vec3, Type::Scalar]
    );
    for (k, a) in b.accessors[1..].iter().enumerate() {
        assert_eq!(a.buffer_view as usize, k + 1);
        assert_eq!(a.count, if k < 3 { 2 } else { 1 });
        assert_eq!(a.component_type, ComponentType::F32);
        if k % 3 == 2 {
            assert_eq!(a.min, Some(vec![0]));
            assert_eq!(a.max, Some(vec![2.5f32.to_bits()]));
        } else {
            assert_eq!((a.min.clone(), a.max.clone()), (None, None));
        }
    }
    let anim = b.anim_node.as_ref().unwrap();
    assert_eq!(anim.name, "walk");
    assert_eq!(
        anim.samplers,
        vec![
            AnimationSampler { input: 3, output: 1 },
            AnimationSampler { input: 3, output: 2 },
            AnimationSampler { input: 6, output: 4 },
            AnimationSampler { input: 6, output: 5 },
        ]
    );
    assert_eq!(
        anim.channels,
        vec![
            Channel { sampler: 0, node: 2, path: Property::Rotation },
            Channel { sampler: 1, node: 2, path: Property::Translation },
            Channel { sampler: 2, node: 0, path: Property::Rotation },
            Channel { sampler: 3, node: 0, path: Property::Translation },
        ]
    );
}

#[test]
fn animation_needs_its_joints() {
    let mut rdm = full_model(true);
    let mut anim = animation();
    anim.anim_vec[1].name = "tail".to_string();
    rdm.add_anim(anim);
    let mut b = builder_with_joint_nodes(rdm);
    assert_eq!(
        b.put_rdm_anim(0),
        Err(RdmError::MissingData(Missing::AnimationTarget))
    );
    assert!(b.buffers.len() == 1 && b.anim_node.is_none());

    let mut b = RDGltfBuilder::new(full_model(true));
    assert_eq!(b.put_rdm_anim(0), Err(RdmError::MissingData(Missing::Animation)));

    // The tracks drive the nodes of the joints, which have to be there.
    let mut rdm = full_model(true);
    rdm.add_anim(animation());
    let mut b = RDGltfBuilder::new(rdm);
    assert_eq!(b.put_rdm_anim(0), Err(RdmError::MissingData(Missing::JointNodes)));
    assert!(b.buffers.is_empty() && b.anim_node.is_none());

    let mut rdm = full_model(false);
    rdm.add_anim(animation());
    let mut b = RDGltfBuilder::new(rdm);
    assert_eq!(b.put_rdm_anim(0), Err(RdmError::MissingData(Missing::Joints)));
}

#[test]
fn tracks_drive_the_last_joint_of_their_name() {
    let mut rdm = full_model(true);
    rdm.joints.as_mut().unwrap()[3].name = "hip".to_string();
    rdm.add_anim(animation());
    let mut b = builder_with_joint_nodes(rdm);
    b.put_rdm_anim(0).unwrap();
    let nodes: Vec<u32> = b.anim_node.unwrap().channels.iter().map(|c| c.node).collect();
    assert_eq!(nodes, vec![2, 2, 3, 3]);
}

#[test]
fn document_needs_indices_and_materials() {
    let b = RDGltfBuilder::new(minimal_model());
    assert_eq!(b.build().err(), Some(RdmError::MissingData(Missing::Indices)));

    let mut b = RDGltfBuilder::new(minimal_model());
    b.put_idx().unwrap();
    assert_eq!(b.build().err(), Some(RdmError::MissingData(Missing::Materials)));

    let block: Vec<u8> = (0u8..24).collect();
    let bytes = file(8, &block, &[(0, 3, 1)], &[[0, 1, 2]], &[]);
    let mut b = RDGltfBuilder::new(RDModell::new(bytes).unwrap());
    b.put_idx().unwrap();
    b.put_material().unwrap();
    assert_eq!(b.build().err(), Some(RdmError::MalformedFormat(Malformed::SubmeshId)));
}

#[test]
fn skinned_model_exports_in_order() {
    let mut rdm = full_model(true);
    rdm.add_anim(animation());
    rdm.mat = Some(RDMaterial { c_model_diff_tex: vec!["skin".to_string()] });
    let f = flatten(rdm.joints.as_ref().unwrap(), JointOption::ResolveParentNode);
    let c = computed_for(2, 4, 1);
    let doc = RDGltfBuilder::from(rdm, &c, Some(f)).unwrap().build().unwrap();
    let root = doc.root.as_ref().unwrap();

    // Positions, indices, texture coordinates, normals, tangents, inverse
    // bind matrices, weights, animation.
    let lengths: Vec<usize> = doc.buffers.iter().map(|b| b.len()).collect();
    assert_eq!(lengths, vec![24, 12, 16, 24, 32, 256, 44, 96]);
    for (k, buffer) in root.buffers.iter().enumerate() {
        assert_eq!(buffer.uri, RDGltf::file_name(k));
        assert_eq!(buffer.byte_length as usize, lengths[k]);
        assert_eq!(lengths[k] % 4, 0);
    }
    assert_eq!(root.buffer_views.len(), 5 + 1 + 2 + 6);
    assert_eq!(root.accessors.len(), 6 + 1 + 2 + 6);
    for view in &root.buffer_views {
        let start = view.byte_offset.unwrap_or(0);
        assert!(start + view.byte_length <= root.buffers[view.buffer as usize].byte_length);
    }
    for accessor in &root.accessors {
        assert!((accessor.buffer_view as usize) < root.buffer_views.len());
    }
    assert_eq!(root.meshes[0].primitives.len(), 2);
    for (i, p) in root.meshes[0].primitives.iter().enumerate() {
        assert_eq!(p.indices as usize, 1 + i);
        assert_eq!(p.material as usize, i);
        assert_eq!(
            p.attributes,
            vec![
                (Semantic::Positions, 0),
                (Semantic::TexCoords(0), 3),
                (Semantic::Normals, 4),
                (Semantic::Tangents, 5),
                (Semantic::Joints(0), 7),
                (Semantic::Weights(0), 8),
            ]
        );
    }
    assert_eq!(root.nodes.len(), 5);
    assert_eq!(root.scenes[0].nodes, vec![4]);
    assert_eq!(root.skins.len(), 1);
    assert_eq!(root.skins[0].inverse_bind_matrices, Some(6));
    assert_eq!(root.animations.len(), 1);
    assert_eq!(root.animations[0].samplers[0], AnimationSampler { input: 11, output: 9 });
    assert_eq!(root.animations[0].channels[3].node, 0);
    assert_eq!((root.images.len(), root.textures.len(), root.samplers), (1, 1, 1));
    assert_eq!(root.images[0].uri, "skin.png");
    assert_eq!(root.materials[0].base_color_texture, Some(0));
    assert_eq!(root.materials[1].base_color_texture, None);
}
