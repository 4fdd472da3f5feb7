//! The skeleton: inverse bind matrices, joint nodes, armature and skin.

use crate::bits::ONE;
use crate::blob::{new_blob, padded, words_le, MAX_BLOB};
use crate::buf::{bytes_mut_put_u32_le, bytes_mut_to_vec, bytes_mut_view, u32_le_bytes};
use crate::error::{Malformed, Missing, RdmError};
use crate::gltf_export::{node_ok, JointOption, RDGltfBuilder};
use crate::gltf_json::{
    views,
    Accessor,
    AccessorData,
    BufferData,
    BufferView,
    ComponentType,
    Node,
    NodeData,
    Skin,
    SkinData,
    Type,
};
use crate::joints::{
    child_list, child_view, is_child_from, joint_parents, joint_transforms, lemma_all_root,
    lemma_indices_in_range, JointFlattening,
};
use crate::model::{JointTransform, RDJoint};
use crate::text::buffer_file_name;
use vstd::prelude::*;
use vstd::string::StringExecFns;

verus! {

/// The inverse bind matrices as the blob has them: of each matrix the
/// first fifteen numbers as supplied, and 1 in the place of the last.
pub open spec fn matrices_le(matrices: Seq<[u32; 16]>) -> Seq<u8>
    decreases matrices.len(),
{
    if matrices.len() == 0 {
        Seq::empty()
    } else {
        matrices_le(matrices.drop_last()) + words_le(matrices.last()@.take(15)) + u32_le_bytes(ONE)
    }
}

proof fn lemma_matrices_le_len(matrices: Seq<[u32; 16]>)
    ensures
        matrices_le(matrices).len() == 64 * matrices.len(),
    decreases matrices.len(),
{
    if matrices.len() > 0 {
        lemma_matrices_le_len(matrices.drop_last());
        crate::blob::lemma_words_le_len(matrices.last()@.take(15));
    }
}

/// The node of a joint.
pub open spec fn joint_node(joint: RDJoint, transform: JointTransform, children: Option<Seq<u32>>)
    -> NodeData {
    NodeData {
        children,
        mesh: None,
        name: Some(joint.name@),
        rotation: Some(transform.rotation@),
        translation: Some(transform.translation@),
        skin: None,
    }
}

/// The node that holds the skinned mesh, with the root joints below it.
pub open spec fn armature_node(roots: Seq<u32>) -> NodeData {
    NodeData {
        children: Some(roots),
        mesh: Some(0),
        name: Some("armature"@),
        rotation: None,
        translation: None,
        skin: Some(0),
    }
}

/// Whether the skeleton can be laid out, and why not.
pub open spec fn put_joint_nodes_outcome(
    b: RDGltfBuilder,
    flattening: JointFlattening,
    matrices: nat,
) -> Result<(), RdmError> {
    if b.rdm.joints is None {
        Err(RdmError::MissingData(Missing::Joints))
    } else if !(flattening.is_done() && same_skeleton(flattening, b.rdm.joints->Some_0@)
        && matrices == b.rdm.joints->Some_0@.len()) {
        Err(RdmError::MissingData(Missing::JointTransform))
    } else if b.nodes@.len() != 0 {
        Err(RdmError::MalformedFormat(Malformed::NodesPresent))
    } else if !(64 * matrices <= MAX_BLOB && b.has_room(1, 1, 1)) {
        Err(RdmError::MalformedFormat(Malformed::TooLarge))
    } else {
        Ok(())
    }
}

/// What laying out the skeleton does to the builder: the inverse bind
/// matrices become the next buffer, with a view and an accessor; every
/// joint becomes a node, in the order of the joints, with the transform
/// that the flattening left it and the children that hang below it; the
/// armature node follows; and the skin lists the nodes of the joints.
pub open spec fn joint_nodes_added(
    old: RDGltfBuilder,
    new: RDGltfBuilder,
    flattening: JointFlattening,
    matrices: Seq<[u32; 16]>,
) -> bool {
    let joints = old.rdm.joints->Some_0@;
    let buffer = old.buffers@.len();
    let view = old.buffer_views@.len();
    let accessor = old.accessors@.len();
    let bytes = padded(matrices_le(matrices));
    &&& new.obj.root == old.obj.root
    &&& new.obj.blobs() == old.obj.blobs().push(bytes)
    &&& views(new.buffers@) == views(old.buffers@).push(
        BufferData { byte_length: bytes.len() as u32, uri: buffer_file_name(buffer) },
    )
    &&& new.buffer_views@ == old.buffer_views@.push(
        BufferView {
            buffer: buffer as u32,
            byte_length: bytes.len() as u32,
            byte_offset: None,
            target: None,
        },
    )
    &&& views(new.accessors@) == views(old.accessors@).push(
        AccessorData {
            buffer_view: view as u32,
            byte_offset: 0,
            count: joints.len() as u32,
            component_type: ComponentType::F32,
            type_: Type::Mat4,
            min: None,
            max: None,
        },
    )
    &&& views(new.nodes@) == Seq::new(
        joints.len() + 1,
        |i: int|
            if i < joints.len() {
                joint_node(joints[i], flattening.transforms@[i], child_view(flattening.children@[i]))
            } else {
                armature_node(flattening.roots@)
            },
    )
    &&& new.skin is Some
    &&& new.skin->Some_0@ == (SkinData {
        joints: Seq::new(joints.len(), |i: int| i as u32),
        inverse_bind_matrices: Some(accessor as u32),
    })
    &&& new == (RDGltfBuilder {
        buffers: new.buffers,
        buffer_views: new.buffer_views,
        accessors: new.accessors,
        nodes: new.nodes,
        skin: new.skin,
        obj: new.obj,
        ..old
    })
}

/// Serializes inverse bind matrices.
fn pack_matrices(matrices: &Vec<[u32; 16]>) -> (r: Vec<u8>)
    requires
        64 * matrices@.len() <= MAX_BLOB,
    ensures
        r@ == matrices_le(matrices@),
{
    let n = matrices.len();
    let mut buf = new_blob(64 * n);
    let mut i: usize = 0;
    while i < n
        invariant
            i <= n,
            n == matrices@.len(),
            64 * n <= MAX_BLOB,
            bytes_mut_view(buf) == matrices_le(matrices@.take(i as int)),
        decreases n - i,
    {
        proof {
            lemma_matrices_le_len(matrices@.take(i as int));
            assert(matrices@.take(i as int + 1).drop_last() =~= matrices@.take(i as int));
        }
        let m = &matrices[i];
        let ghost start = bytes_mut_view(buf);
        let mut k: usize = 0;
        assert(m@.take(15).take(0) =~= Seq::<u32>::empty());
        assert(start + words_le(m@.take(15).take(0)) =~= start);
        while k < 15
            invariant
                k <= 15,
                start.len() + 64 <= MAX_BLOB,
                bytes_mut_view(buf) == start + words_le(m@.take(15).take(k as int)),
            decreases 15 - k,
        {
            proof {
                crate::blob::lemma_words_le_len(m@.take(15).take(k as int));
                assert(m@.take(15).take(k as int + 1).drop_last() =~= m@.take(15).take(k as int));
            }
            bytes_mut_put_u32_le(&mut buf, m[k]);
            assert(bytes_mut_view(buf) =~= start + words_le(m@.take(15).take(k as int + 1)));
            k = k + 1;
        }
        proof {
            assert(m@.take(15).take(15) =~= m@.take(15));
            crate::blob::lemma_words_le_len(m@.take(15));
        }
        bytes_mut_put_u32_le(&mut buf, ONE);
        assert(bytes_mut_view(buf) =~= matrices_le(matrices@.take(i as int + 1)));
        i = i + 1;
    }
    assert(matrices@.take(n as int) =~= matrices@);
    bytes_mut_to_vec(&buf)
}

/// A copy of a list of indices.
fn copy_indices(v: &Vec<u32>) -> (r: Vec<u32>)
    ensures
        r@ == v@,
{
    let mut out: Vec<u32> = Vec::new();
    let mut i: usize = 0;
    while i < v.len()
        invariant
            i <= v.len(),
            out@ == v@.take(i as int),
        decreases v.len() - i,
    {
        out.push(v[i]);
        assert(out@ =~= v@.take(i as int + 1));
        i = i + 1;
    }
    assert(v@.take(v.len() as int) =~= v@);
    out
}

/// The flattening is that of the given joints: it has their parent ids
/// and started from their transforms.
pub open spec fn same_skeleton(flattening: JointFlattening, joints: Seq<RDJoint>) -> bool {
    flattening.parents@ == joint_parents(joints) && flattening.global@ == joint_transforms(
        joints,
    )
}

/// Tells whether the flattening is that of the given joints.
#[verifier::rlimit(50)]
fn is_same_skeleton(flattening: &JointFlattening, joints: &Vec<RDJoint>) -> (b: bool)
    requires
        flattening.wf(),
    ensures
        b == same_skeleton(*flattening, joints@),
{
    let n = joints.len();
    if flattening.parents.len() != n {
        return false;
    }
    let mut i: usize = 0;
    while i < n
        invariant
            i <= n,
            n == joints@.len(),
            flattening.parents@.len() == n,
            flattening.global@.len() == n,
            flattening.parents@.take(i as int) == joint_parents(joints@).take(i as int),
            flattening.global@.take(i as int) == joint_transforms(joints@).take(i as int),
        decreases n - i,
    {
        let t = &flattening.global[i];
        let j = &joints[i];
        let same = flattening.parents[i] == j.parent && t.translation[0] == j.transition[0]
            && t.translation[1] == j.transition[1] && t.translation[2] == j.transition[2]
            && t.rotation[0] == j.quaternion[0] && t.rotation[1] == j.quaternion[1]
            && t.rotation[2] == j.quaternion[2] && t.rotation[3] == j.quaternion[3];
        if !same {
            proof {
                if flattening.parents@[i as int] == j.parent {
                    assert(flattening.global@[i as int] != joint_transforms(joints@)[i as int]);
                } else {
                    assert(flattening.parents@[i as int] != joint_parents(joints@)[i as int]);
                }
            }
            return false;
        }
        proof {
            broadcast use vstd::array::group_array_axioms;

            assert(t.translation@ =~= j.transition@);
            assert(t.rotation@ =~= j.quaternion@);
            assert(t.translation =~= j.transition);
            assert(t.rotation =~= j.quaternion);
            assert(flattening.global@[i as int] == joint_transforms(joints@)[i as int]);
            assert(flattening.parents@.take(i as int + 1) =~= flattening.parents@.take(
                i as int,
            ).push(flattening.parents@[i as int]));
            assert(joint_parents(joints@).take(i as int + 1) =~= joint_parents(joints@).take(
                i as int,
            ).push(joints@[i as int].parent));
            assert(flattening.global@.take(i as int + 1) =~= flattening.global@.take(
                i as int,
            ).push(flattening.global@[i as int]));
            assert(joint_transforms(joints@).take(i as int + 1) =~= joint_transforms(
                joints@,
            ).take(i as int).push(joint_transforms(joints@)[i as int]));
        }
        i = i + 1;
    }
    proof {
        assert(flattening.parents@.take(n as int) =~= flattening.parents@);
        assert(joint_parents(joints@).take(n as int) =~= joint_parents(joints@));
        assert(flattening.global@.take(n as int) =~= flattening.global@);
        assert(joint_transforms(joints@).take(n as int) =~= joint_transforms(joints@));
    }
    true
}

/// With every joint a root, the nodes of the joints have the transforms
/// that the model has for them, bit for bit; no node of a joint has
/// children; and the armature node has every joint as its child.
#[verifier::rlimit(50)]
pub proof fn lemma_all_root_keeps_transforms(
    old: RDGltfBuilder,
    new: RDGltfBuilder,
    flattening: JointFlattening,
    matrices: Seq<[u32; 16]>,
)
    requires
        flattening.wf(),
        flattening.cfg == JointOption::ResolveAllRoot,
        put_joint_nodes_outcome(old, flattening, matrices.len()) is Ok,
        joint_nodes_added(old, new, flattening, matrices),
    ensures
        new.nodes@.len() == old.rdm.joints->Some_0@.len() + 1,
        forall|i: int|
            0 <= i < old.rdm.joints->Some_0@.len() ==> {
                let node = #[trigger] views(new.nodes@)[i];
                let joint = old.rdm.joints->Some_0@[i];
                &&& node.translation == Some(joint.transition@)
                &&& node.rotation == Some(joint.quaternion@)
                &&& node.name == Some(joint.name@)
                &&& node.children is None
            },
        views(new.nodes@)[old.rdm.joints->Some_0@.len() as int].children == Some(
            Seq::new(old.rdm.joints->Some_0@.len(), |i: int| i as u32),
        ),
{
    let joints = old.rdm.joints->Some_0@;
    let n = joints.len();
    let parents = flattening.parents@;
    lemma_all_root(parents, flattening.plan@, 0, n as int);
    assert(views(new.nodes@).len() == n + 1);
    assert forall|i: int| 0 <= i < n implies {
        let node = #[trigger] views(new.nodes@)[i];
        let joint = joints[i];
        &&& node.translation == Some(joint.transition@)
        &&& node.rotation == Some(joint.quaternion@)
        &&& node.name == Some(joint.name@)
        &&& node.children is None
    } by {
        lemma_all_root(parents, flattening.plan@, i, n as int);
        assert(!is_child_from(flattening.plan@, 0, i));
        assert(flattening.transforms@[i] == flattening.global@[i]);
        assert(flattening.global@[i] == joint_transforms(joints)[i]);
        assert(child_view(flattening.children@[i]) == child_list(
            parents,
            JointOption::ResolveAllRoot,
            i,
        ));
    }
    assert(flattening.roots@ =~= Seq::new(n, |i: int| i as u32));
}

impl RDGltfBuilder {
    /// Lays out the skeleton: the inverse bind matrices, a node for each
    /// joint, the armature node, and the skin. `flattening` holds the
    /// hierarchy of the model's joints and their transforms, with every
    /// pair done; `inverse_bind` holds one matrix for each joint, column
    /// by column. The joints become the first nodes of the document.
    #[verifier::rlimit(50)]
    pub fn put_joint_nodes(
        &mut self,
        flattening: &JointFlattening,
        inverse_bind: &Vec<[u32; 16]>,
    ) -> (r: Result<(), RdmError>)
        requires
            old(self).wf(),
            flattening.wf(),
        ensures
            final(self).wf(),
            match put_joint_nodes_outcome(*old(self), *flattening, inverse_bind@.len()) {
                Ok(()) => r is Ok && joint_nodes_added(
                    *old(self),
                    *final(self),
                    *flattening,
                    inverse_bind@,
                ),
                Err(e) => r == Err::<(), RdmError>(e) && *final(self) == *old(self),
            },
    {
        let n = match &self.rdm.joints {
            Some(joints) => {
                if !(flattening.remaining == 0 && is_same_skeleton(flattening, joints)
                    && inverse_bind.len() == joints.len()) {
                    return Err(RdmError::MissingData(Missing::JointTransform));
                }
                joints.len()
            },
            None => {
                return Err(RdmError::MissingData(Missing::Joints));
            },
        };
        if self.nodes.len() != 0 {
            return Err(RdmError::MalformedFormat(Malformed::NodesPresent));
        }
        if !(n <= MAX_BLOB / 64 && self.check_room(1, 1, 1)) {
            return Err(RdmError::MalformedFormat(Malformed::TooLarge));
        }
        let invbind_buf = pack_matrices(inverse_bind);
        proof {
            lemma_matrices_le_len(inverse_bind@);
        }
        let invbind_buf_p = self.add_buffer(invbind_buf, n as u32);
        let mat_buffer_view_idx = self.add_view(
            BufferView {
                buffer: invbind_buf_p.idx,
                byte_length: invbind_buf_p.len,
                byte_offset: None,
                target: None,
            },
        );
        let mat_accessor_idx = self.add_accessor(
            Accessor {
                buffer_view: mat_buffer_view_idx,
                byte_offset: 0,
                count: n as u32,
                component_type: ComponentType::F32,
                type_: Type::Mat4,
                min: None,
                max: None,
            },
        );
        let ghost mid = *self;
        let ghost joints_seq = self.rdm.joints->Some_0@;
        let mut joint_indi_vec: Vec<u32> = Vec::new();
        let mut i: usize = 0;
        while i < n
            invariant
                i <= n,
                mid.wf(),
                flattening.wf(),
                mid.rdm.joints is Some,
                joints_seq == mid.rdm.joints->Some_0@,
                n == joints_seq.len(),
                n == flattening.parents@.len(),
                mid.nodes@.len() == 0,
                self.nodes@.len() == i,
                views(self.nodes@) == Seq::new(
                    i as nat,
                    |k: int|
                        joint_node(
                            joints_seq[k],
                            flattening.transforms@[k],
                            child_view(flattening.children@[k]),
                        ),
                ),
                joint_indi_vec@ == Seq::new(i as nat, |k: int| k as u32),
                forall|k: int|
                    0 <= k < i ==> node_ok(#[trigger] self.nodes@[k], (n + 1) as nat, true),
                *self == (RDGltfBuilder { nodes: self.nodes, ..mid }),
            decreases n - i,
        {
            let children = match &flattening.children[i] {
                Some(c) => Some(copy_indices(c)),
                None => None,
            };
            let name = match &self.rdm.joints {
                Some(joints) => joints[i].name.clone(),
                None => String::new(),
            };
            let ijoint = Node {
                children,
                mesh: None,
                name: Some(name),
                rotation: Some(flattening.transforms[i].rotation),
                translation: Some(flattening.transforms[i].translation),
                skin: None,
            };
            let ghost before = self.nodes@;
            let ghost data = ijoint@;
            proof {
                lemma_indices_in_range(flattening.parents@, flattening.cfg, i as int, n as int);
                assert(child_view(flattening.children@[i as int]) == child_list(
                    flattening.parents@,
                    flattening.cfg,
                    i as int,
                ));
                assert(node_ok(ijoint, (n + 1) as nat, true));
            }
            self.nodes.push(ijoint);
            joint_indi_vec.push(i as u32);
            proof {
                assert forall|k: int| 0 <= k < i + 1 implies node_ok(
                    #[trigger] self.nodes@[k],
                    (n + 1) as nat,
                    true,
                ) by {
                    if k < i {
                        assert(self.nodes@[k] == before[k]);
                    }
                }
                assert(views(self.nodes@) =~= views(before).push(data));
                assert(views(self.nodes@) =~= Seq::new(
                    (i + 1) as nat,
                    |k: int|
                        joint_node(
                            joints_seq[k],
                            flattening.transforms@[k],
                            child_view(flattening.children@[k]),
                        ),
                ));
                assert(joint_indi_vec@ =~= Seq::new((i + 1) as nat, |k: int| k as u32));
            }
            i = i + 1;
        }
        let main_node = Node {
            children: Some(copy_indices(&flattening.roots)),
            mesh: Some(0),
            name: Some(String::from_str("armature")),
            rotation: None,
            translation: None,
            skin: Some(0),
        };
        let ghost before = self.nodes@;
        let ghost data = main_node@;
        proof {
            lemma_indices_in_range(flattening.parents@, flattening.cfg, 0, n as int);
            assert(node_ok(main_node, (n + 1) as nat, true));
        }
        self.nodes.push(main_node);
        self.skin = Some(
            Skin { joints: joint_indi_vec, inverse_bind_matrices: Some(mat_accessor_idx) },
        );
        proof {
            assert forall|k: int| 0 <= k < self.nodes@.len() implies node_ok(
                #[trigger] self.nodes@[k],
                self.nodes@.len(),
                self.skin is Some,
            ) by {
                if k < n {
                    assert(self.nodes@[k] == before[k]);
                }
            }
            assert(views(self.nodes@) =~= views(before).push(data));
            assert(views(self.nodes@) =~= Seq::new(
                (n + 1) as nat,
                |k: int|
                    if k < n {
                        joint_node(
                            joints_seq[k],
                            flattening.transforms@[k],
                            child_view(flattening.children@[k]),
                        )
                    } else {
                        armature_node(flattening.roots@)
                    },
            ));
        }
        Ok(())
    }
}

} // verus!
