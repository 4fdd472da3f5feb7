//! From joints placed in model space to a hierarchy of nodes, each placed
//! relative to its parent.
//!
//! The library decides which joint hangs below which and in what order
//! the transforms are rewritten. Combining two transforms is floating
//! point arithmetic and is done by the caller: it asks for the pending
//! pair, combines parent and child, and hands the result back.

use crate::error::{Malformed, RdmError};
use crate::gltf_export::JointOption;
use crate::model::{JointTransform, RDJoint, ROOT_PARENT};
use vstd::prelude::*;

verus! {

/// The joint hangs directly below the scene root.
pub open spec fn is_root(parents: Seq<u8>, cfg: JointOption, j: int) -> bool {
    cfg == JointOption::ResolveAllRoot || parents[j] == ROOT_PARENT
}

/// Joint `z` is a root, or hangs below a root over at most `d` joints.
pub open spec fn reaches_root(parents: Seq<u8>, cfg: JointOption, z: int, d: nat) -> bool
    decreases d,
{
    0 <= z < parents.len() && (is_root(parents, cfg, z) || (d > 0 && reaches_root(
        parents,
        cfg,
        parents[z] as int,
        (d - 1) as nat,
    )))
}

/// The joint has its place in the hierarchy: it is a root, or it hangs
/// below a joint that has its place.
pub open spec fn placed(parents: Seq<u8>, cfg: JointOption, z: int) -> bool {
    exists|d: nat| reaches_root(parents, cfg, z, d)
}

/// Joint `j` is hung below joint `z`: `z` is its parent and has its
/// place, and `j` is no root.
pub open spec fn attaches(parents: Seq<u8>, cfg: JointOption, z: int, j: int) -> bool {
    0 <= j < parents.len() && parents[j] == z && !is_root(parents, cfg, j) && placed(
        parents,
        cfg,
        z,
    )
}

/// The roots among the first `n` joints, in ascending order.
pub open spec fn roots_upto(parents: Seq<u8>, cfg: JointOption, n: int) -> Seq<u32>
    decreases n,
{
    if n <= 0 {
        Seq::empty()
    } else if is_root(parents, cfg, n - 1) {
        roots_upto(parents, cfg, n - 1).push((n - 1) as u32)
    } else {
        roots_upto(parents, cfg, n - 1)
    }
}

/// The joints among the first `j` that are hung below joint `z`, in
/// ascending order.
pub open spec fn children_upto(parents: Seq<u8>, cfg: JointOption, z: int, j: int) -> Seq<u32>
    decreases j,
{
    if j <= 0 {
        Seq::empty()
    } else if attaches(parents, cfg, z, j - 1) {
        children_upto(parents, cfg, z, j - 1).push((j - 1) as u32)
    } else {
        children_upto(parents, cfg, z, j - 1)
    }
}

/// The children that the node of joint `z` lists, if it lists any.
pub open spec fn child_list(parents: Seq<u8>, cfg: JointOption, z: int) -> Option<Seq<u32>> {
    let c = children_upto(parents, cfg, z, parents.len() as int);
    if c.len() > 0 {
        Some(c)
    } else {
        None
    }
}

/// Joint `j` is the child of a pair of `plan` at or behind place `from`.
pub open spec fn is_child_from(plan: Seq<(usize, usize)>, from: int, j: int) -> bool {
    exists|k: int| from <= k < plan.len() && (#[trigger] plan[k]).1 == j
}

/// Joint `j` is the child of a pair of `plan` before place `upto`.
pub open spec fn is_child_before(plan: Seq<(usize, usize)>, upto: int, j: int) -> bool {
    exists|k: int| 0 <= k < upto && k < plan.len() && (#[trigger] plan[k]).1 == j
}

/// `plan` is a work queue for the skeleton: its pairs (parent, child) are
/// the joints that are hung below another, each once, and every parent is
/// a root or stands as a child before it stands as a parent.
pub open spec fn valid_plan(parents: Seq<u8>, cfg: JointOption, plan: Seq<(usize, usize)>) -> bool {
    &&& forall|k: int|
        0 <= k < plan.len() ==> attaches(
            parents,
            cfg,
            (#[trigger] plan[k]).0 as int,
            plan[k].1 as int,
        )
    &&& forall|k1: int, k2: int|
        0 <= k1 < k2 < plan.len() ==> (#[trigger] plan[k1]).1 != (#[trigger] plan[k2]).1
    &&& forall|k: int|
        0 <= k < plan.len() ==> is_root(parents, cfg, (#[trigger] plan[k]).0 as int)
            || is_child_before(plan, k, plan[k].0 as int)
    &&& forall|j: int|
        0 <= j < parents.len() && !is_root(parents, cfg, j) && #[trigger] placed(parents, cfg, j)
            ==> is_child_from(plan, 0, j)
}

/// When the pairs of a work queue are taken from its end, the parent of
/// the pair taken has not been the child of a pair taken before, and
/// neither has its child.
pub proof fn lemma_plan_order(parents: Seq<u8>, cfg: JointOption, plan: Seq<(usize, usize)>, k: int)
    requires
        valid_plan(parents, cfg, plan),
        0 <= k < plan.len(),
    ensures
        !is_child_from(plan, k + 1, plan[k].0 as int),
        !is_child_from(plan, k + 1, plan[k].1 as int),
{
    let p = plan[k].0 as int;
    if is_child_from(plan, k + 1, p) {
        let later = choose|i: int| k + 1 <= i < plan.len() && (#[trigger] plan[i]).1 == p;
        assert(attaches(parents, cfg, plan[later].0 as int, plan[later].1 as int));
        assert(is_child_before(plan, k, p));
        let earlier = choose|i: int| 0 <= i < k && i < plan.len() && (#[trigger] plan[i]).1 == p;
        assert(plan[earlier].1 != plan[later].1);
    }
    if is_child_from(plan, k + 1, plan[k].1 as int) {
        let later = choose|i: int|
            k + 1 <= i < plan.len() && (#[trigger] plan[i]).1 == plan[k].1 as int;
        assert(plan[k].1 != plan[later].1);
    }
}

/// With every joint a root, no joint hangs below another: the work queue
/// is empty, no joint has children, and the roots are all joints in their
/// order.
pub proof fn lemma_all_root(parents: Seq<u8>, plan: Seq<(usize, usize)>, z: int, n: int)
    requires
        0 <= n,
        valid_plan(parents, JointOption::ResolveAllRoot, plan),
    ensures
        plan.len() == 0,
        children_upto(parents, JointOption::ResolveAllRoot, z, n).len() == 0,
        roots_upto(parents, JointOption::ResolveAllRoot, n).len() == n,
        forall|i: int|
            0 <= i < n ==> #[trigger] roots_upto(parents, JointOption::ResolveAllRoot, n)[i]
                == i as u32,
    decreases n,
{
    if plan.len() > 0 {
        assert(attaches(
            parents,
            JointOption::ResolveAllRoot,
            plan[0].0 as int,
            plan[0].1 as int,
        ));
    }
    if n > 0 {
        lemma_all_root(parents, plan, z, n - 1);
    }
}

/// The roots and the children among the first `j` joints are joints
/// among the first `j`.
pub proof fn lemma_indices_in_range(parents: Seq<u8>, cfg: JointOption, z: int, j: int)
    requires
        0 <= j <= u32::MAX,
    ensures
        forall|k: int|
            0 <= k < children_upto(parents, cfg, z, j).len() ==> #[trigger] children_upto(
                parents,
                cfg,
                z,
                j,
            )[k] < j,
        forall|k: int|
            0 <= k < roots_upto(parents, cfg, j).len() ==> #[trigger] roots_upto(parents, cfg, j)[k]
                < j,
    decreases j,
{
    if j > 0 {
        lemma_indices_in_range(parents, cfg, z, j - 1);
        let children = children_upto(parents, cfg, z, j);
        let fewer = children_upto(parents, cfg, z, j - 1);
        assert forall|k: int| 0 <= k < children.len() implies #[trigger] children[k] < j by {
            if k < fewer.len() {
                assert(children[k] == fewer[k]);
            }
        }
        let roots = roots_upto(parents, cfg, j);
        let fewer_roots = roots_upto(parents, cfg, j - 1);
        assert forall|k: int| 0 <= k < roots.len() implies #[trigger] roots[k] < j by {
            if k < fewer_roots.len() {
                assert(roots[k] == fewer_roots[k]);
            }
        }
    }
}

/// The parent ids of the joints.
pub open spec fn joint_parents(joints: Seq<RDJoint>) -> Seq<u8> {
    Seq::new(joints.len(), |i: int| joints[i].parent)
}

/// The transforms of the joints.
pub open spec fn joint_transforms(joints: Seq<RDJoint>) -> Seq<JointTransform> {
    Seq::new(
        joints.len(),
        |i: int| JointTransform { translation: joints[i].transition, rotation: joints[i].quaternion },
    )
}

/// The indices of a list of children, if there is one.
pub open spec fn child_view(children: Option<Vec<u32>>) -> Option<Seq<u32>> {
    match children {
        Some(c) => Some(c@),
        None => None,
    }
}

/// How many joints have no place yet.
spec fn count_free(locked: Seq<bool>) -> nat
    decreases locked.len(),
{
    if locked.len() == 0 {
        0
    } else {
        count_free(locked.drop_last()) + if locked.last() {
            0nat
        } else {
            1nat
        }
    }
}

/// Every joint that is marked has its place, by the depth noted for it,
/// and every root is marked.
spec fn sound(parents: Seq<u8>, cfg: JointOption, locked: Seq<bool>, depth: Seq<nat>) -> bool {
    &&& locked.len() == parents.len()
    &&& depth.len() == parents.len()
    &&& forall|j: int|
        0 <= j < parents.len() && #[trigger] locked[j] ==> reaches_root(parents, cfg, j, depth[j])
    &&& forall|j: int| 0 <= j < parents.len() && is_root(parents, cfg, j) ==> #[trigger] locked[j]
}

/// The pairs found so far are the marked joints that are no roots, each
/// once, with their parents, and every parent is a root or stands as a
/// child before it stands as a parent.
spec fn plan_tracks(
    parents: Seq<u8>,
    cfg: JointOption,
    locked: Seq<bool>,
    plan: Seq<(usize, usize)>,
) -> bool {
    &&& forall|k: int|
        0 <= k < plan.len() ==> {
            let pair = #[trigger] plan[k];
            &&& pair.0 < parents.len()
            &&& pair.1 < parents.len()
            &&& parents[pair.1 as int] == pair.0
            &&& !is_root(parents, cfg, pair.1 as int)
            &&& locked[pair.0 as int]
            &&& locked[pair.1 as int]
        }
    &&& forall|k1: int, k2: int|
        0 <= k1 < k2 < plan.len() ==> (#[trigger] plan[k1]).1 != (#[trigger] plan[k2]).1
    &&& forall|k: int|
        0 <= k < plan.len() ==> is_root(parents, cfg, (#[trigger] plan[k]).0 as int)
            || is_child_before(plan, k, plan[k].0 as int)
    &&& forall|j: int|
        0 <= j < parents.len() && #[trigger] locked[j] && !is_root(parents, cfg, j)
            ==> is_child_from(plan, 0, j)
}

/// No joint without place has the marked joint `y` as its parent.
spec fn closed_below(parents: Seq<u8>, locked: Seq<bool>, y: int, upto: int) -> bool {
    forall|j: int| 0 <= j < upto ==> !(parents[j] == y && locked[y] && !#[trigger] locked[j])
}

/// No joint without place has a marked joint as its parent.
spec fn closed(parents: Seq<u8>, locked: Seq<bool>) -> bool {
    forall|y: int|
        0 <= y < parents.len() ==> #[trigger] closed_below(parents, locked, y, parents.len() as int)
}

/// Marking a joint whose parent is marked keeps what is known of the
/// marks and of the pairs, and leaves one joint less without place.
proof fn lemma_lock(
    parents: Seq<u8>,
    cfg: JointOption,
    locked: Seq<bool>,
    depth: Seq<nat>,
    plan: Seq<(usize, usize)>,
    z: usize,
    j: usize,
)
    requires
        sound(parents, cfg, locked, depth),
        plan_tracks(parents, cfg, locked, plan),
        z < parents.len(),
        j < parents.len(),
        parents[j as int] == z,
        locked[z as int],
        !locked[j as int],
    ensures
        sound(parents, cfg, locked.update(j as int, true), depth.update(j as int, depth[z as int] + 1)),
        plan_tracks(parents, cfg, locked.update(j as int, true), plan.push((z, j))),
        count_free(locked.update(j as int, true)) + 1 == count_free(locked),
{
    let locked2 = locked.update(j as int, true);
    let depth2 = depth.update(j as int, depth[z as int] + 1);
    let plan2 = plan.push((z, j));
    assert(reaches_root(parents, cfg, z as int, depth[z as int]));
    assert(reaches_root(parents, cfg, j as int, depth[z as int] + 1));
    assert forall|i: int| 0 <= i < parents.len() && #[trigger] locked2[i] implies reaches_root(
        parents,
        cfg,
        i,
        depth2[i],
    ) by {
        if i != j {
            assert(locked[i]);
        }
    }
    assert forall|i: int| 0 <= i < parents.len() && is_root(parents, cfg, i) implies #[trigger]
        locked2[i] by {
        assert(locked[i]);
    }
    assert forall|k: int| 0 <= k < plan2.len() implies is_root(
        parents,
        cfg,
        (#[trigger] plan2[k]).0 as int,
    ) || is_child_before(plan2, k, plan2[k].0 as int) by {
        if k < plan.len() {
            assert(plan2[k] == plan[k]);
            if !is_root(parents, cfg, plan[k].0 as int) {
                let i = choose|i: int|
                    0 <= i < k && i < plan.len() && (#[trigger] plan[i]).1 == plan[k].0 as int;
                assert(plan2[i] == plan[i]);
            }
        } else if !is_root(parents, cfg, z as int) {
            assert(is_child_from(plan, 0, z as int));
            let i = choose|i: int| 0 <= i < plan.len() && (#[trigger] plan[i]).1 == z as int;
            assert(plan2[i] == plan[i]);
        }
    }
    assert forall|i: int|
        0 <= i < parents.len() && #[trigger] locked2[i] && !is_root(
            parents,
            cfg,
            i,
        ) implies is_child_from(plan2, 0, i) by {
        if i == j {
            assert(plan2[plan.len() as int].1 == j);
        } else {
            assert(locked[i]);
            let k = choose|k: int| 0 <= k < plan.len() && (#[trigger] plan[k]).1 == i;
            assert(plan2[k] == plan[k]);
        }
    }
    assert forall|k1: int, k2: int| 0 <= k1 < k2 < plan2.len() implies (#[trigger] plan2[k1]).1 != (
    #[trigger] plan2[k2]).1 by {
        assert(plan2[k1] == plan[k1]);
        if k2 < plan.len() {
            assert(plan2[k2] == plan[k2]);
        } else {
            assert(locked[plan[k1].1 as int]);
        }
    }
    assert forall|k: int| 0 <= k < plan2.len() implies {
        let pair = #[trigger] plan2[k];
        &&& pair.0 < parents.len()
        &&& pair.1 < parents.len()
        &&& parents[pair.1 as int] == pair.0
        &&& !is_root(parents, cfg, pair.1 as int)
        &&& locked2[pair.0 as int]
        &&& locked2[pair.1 as int]
    } by {
        if k < plan.len() {
            assert(plan2[k] == plan[k]);
        }
    }
    lemma_count_free(locked, j as int);
}

/// Marking a joint leaves one joint less without place.
proof fn lemma_count_free(locked: Seq<bool>, j: int)
    requires
        0 <= j < locked.len(),
        !locked[j],
    ensures
        count_free(locked.update(j, true)) + 1 == count_free(locked),
    decreases locked.len(),
{
    let front = locked.drop_last();
    if j == locked.len() - 1 {
        assert(locked.update(j, true).drop_last() =~= front);
    } else {
        lemma_count_free(front, j);
        assert(locked.update(j, true).drop_last() =~= front.update(j, true));
    }
}

/// Where no joint without place has a marked parent, every joint that
/// has its place is marked.
proof fn lemma_closed_complete(
    parents: Seq<u8>,
    cfg: JointOption,
    locked: Seq<bool>,
    depth: Seq<nat>,
    z: int,
    d: nat,
)
    requires
        sound(parents, cfg, locked, depth),
        closed(parents, locked),
        reaches_root(parents, cfg, z, d),
    ensures
        locked[z],
    decreases d,
{
    if !is_root(parents, cfg, z) {
        let p = parents[z] as int;
        lemma_closed_complete(parents, cfg, locked, depth, p, (d - 1) as nat);
        assert(closed_below(parents, locked, p, parents.len() as int));
    }
}

/// At the end of the search a joint is marked if and only if it has its
/// place, and the pairs found are a work queue.
proof fn lemma_search_done(
    parents: Seq<u8>,
    cfg: JointOption,
    locked: Seq<bool>,
    depth: Seq<nat>,
    plan: Seq<(usize, usize)>,
)
    requires
        sound(parents, cfg, locked, depth),
        plan_tracks(parents, cfg, locked, plan),
        closed(parents, locked),
    ensures
        forall|z: int| 0 <= z < parents.len() ==> #[trigger] locked[z] == placed(parents, cfg, z),
        valid_plan(parents, cfg, plan),
{
    assert forall|z: int| 0 <= z < parents.len() implies #[trigger] locked[z] == placed(
        parents,
        cfg,
        z,
    ) by {
        if locked[z] {
            assert(reaches_root(parents, cfg, z, depth[z]));
        }
        if placed(parents, cfg, z) {
            let d = choose|d: nat| reaches_root(parents, cfg, z, d);
            lemma_closed_complete(parents, cfg, locked, depth, z, d);
        }
    }
    assert forall|k: int| 0 <= k < plan.len() implies attaches(
        parents,
        cfg,
        (#[trigger] plan[k]).0 as int,
        plan[k].1 as int,
    ) by {
        assert(locked[plan[k].0 as int]);
    }
    assert forall|j: int|
        0 <= j < parents.len() && !is_root(parents, cfg, j) && #[trigger] placed(
            parents,
            cfg,
            j,
        ) implies is_child_from(plan, 0, j) by {
        assert(locked[j]);
    }
}

/// The state of flattening a skeleton: the hierarchy, which is settled
/// from the start, the work queue, of which the first `remaining` pairs
/// still wait for the relative transform of their child, and the
/// transform that each joint has by now.
#[derive(Clone, Debug)]
pub struct JointFlattening {
    pub cfg: JointOption,
    pub parents: Vec<u8>,
    pub global: Vec<JointTransform>,
    pub transforms: Vec<JointTransform>,
    pub roots: Vec<u32>,
    pub children: Vec<Option<Vec<u32>>>,
    pub plan: Vec<(usize, usize)>,
    pub remaining: usize,
}

impl JointFlattening {
    /// The hierarchy is that of the parent ids; the pairs are a work
    /// queue for it; and every joint that is not the child of a pair
    /// already taken has its transform in model space.
    pub open spec fn wf(&self) -> bool {
        let n = self.parents@.len();
        &&& n <= u32::MAX
        &&& self.global@.len() == n
        &&& self.transforms@.len() == n
        &&& self.children@.len() == n
        &&& self.roots@ == roots_upto(self.parents@, self.cfg, n as int)
        &&& forall|z: int|
            0 <= z < n ==> child_view(#[trigger] self.children@[z]) == child_list(
                self.parents@,
                self.cfg,
                z,
            )
        &&& valid_plan(self.parents@, self.cfg, self.plan@)
        &&& self.remaining <= self.plan@.len()
        &&& forall|j: int|
            0 <= j < n && !is_child_from(self.plan@, self.remaining as int, j)
                ==> #[trigger] self.transforms@[j] == self.global@[j]
    }

    /// No pair waits any more.
    pub open spec fn is_done(&self) -> bool {
        self.remaining == 0
    }

    /// The pair that is taken next: the last of those that wait.
    pub open spec fn next_pair(&self) -> (usize, usize) {
        self.plan@[self.remaining - 1]
    }

    /// Settles the hierarchy of `joints`: which joints are roots, which
    /// joint hangs below which, and the pairs whose child needs a
    /// transform relative to its parent. The joints are searched again
    /// and again for joints that have no place yet and whose parent has
    /// one, until none is found; so a joint may come before its parent.
    #[verifier::rlimit(50)]
    pub fn new(joints: &Vec<RDJoint>, cfg: JointOption) -> (r: Result<JointFlattening, RdmError>)
        ensures
            joints@.len() > u32::MAX ==> r == Err::<JointFlattening, RdmError>(
                RdmError::MalformedFormat(Malformed::TooLarge),
            ),
            joints@.len() <= u32::MAX ==> {
                &&& r is Ok
                &&& r->Ok_0.wf()
                &&& r->Ok_0.cfg == cfg
                &&& r->Ok_0.parents@ == joint_parents(joints@)
                &&& r->Ok_0.global@ == joint_transforms(joints@)
                &&& r->Ok_0.transforms@ == joint_transforms(joints@)
                &&& r->Ok_0.remaining == r->Ok_0.plan@.len()
            },
    {
        let n = joints.len();
        if n > u32::MAX as usize {
            return Err(RdmError::MalformedFormat(Malformed::TooLarge));
        }
        let mut parents: Vec<u8> = Vec::new();
        let mut global: Vec<JointTransform> = Vec::new();
        let mut transforms: Vec<JointTransform> = Vec::new();
        let mut roots: Vec<u32> = Vec::new();
        let mut locked: Vec<bool> = Vec::new();
        let mut i: usize = 0;
        while i < n
            invariant
                i <= n,
                n == joints@.len(),
                n <= u32::MAX,
                parents@ == joint_parents(joints@).take(i as int),
                global@ == joint_transforms(joints@).take(i as int),
                transforms@ == global@,
                roots@ == roots_upto(joint_parents(joints@), cfg, i as int),
                locked@.len() == i,
                forall|k: int|
                    0 <= k < i ==> #[trigger] locked@[k] == is_root(joint_parents(joints@), cfg, k),
            decreases n - i,
        {
            let joint = &joints[i];
            let t = JointTransform { translation: joint.transition, rotation: joint.quaternion };
            parents.push(joint.parent);
            global.push(t);
            transforms.push(t);
            let root = cfg == JointOption::ResolveAllRoot || joint.parent == ROOT_PARENT;
            if root {
                roots.push(i as u32);
            }
            locked.push(root);
            proof {
                assert(parents@ =~= joint_parents(joints@).take(i as int + 1));
                assert(global@ =~= joint_transforms(joints@).take(i as int + 1));
            }
            i = i + 1;
        }
        proof {
            assert(parents@ =~= joint_parents(joints@));
            assert(global@ =~= joint_transforms(joints@));
        }
        let (plan, locked) = search(&parents, cfg, locked);
        let mut children: Vec<Option<Vec<u32>>> = Vec::new();
        let mut z: usize = 0;
        while z < n
            invariant
                z <= n,
                n == parents@.len(),
                n <= u32::MAX,
                locked@.len() == n,
                forall|y: int| 0 <= y < n ==> #[trigger] locked@[y] == placed(parents@, cfg, y),
                children@.len() == z,
                forall|k: int|
                    0 <= k < z ==> child_view(#[trigger] children@[k]) == child_list(
                        parents@,
                        cfg,
                        k,
                    ),
            decreases n - z,
        {
            let mut child: Vec<u32> = Vec::new();
            let mut j: usize = 0;
            while j < n
                invariant
                    j <= n,
                    z < n,
                    n == parents@.len(),
                    n <= u32::MAX,
                    locked@.len() == n,
                    locked@[z as int] == placed(parents@, cfg, z as int),
                    child@ == children_upto(parents@, cfg, z as int, j as int),
                decreases n - j,
            {
                let root = cfg == JointOption::ResolveAllRoot || parents[j] == ROOT_PARENT;
                if locked[z] && parents[j] as usize == z && !root {
                    child.push(j as u32);
                }
                j = j + 1;
            }
            if child.len() > 0 {
                children.push(Some(child));
            } else {
                children.push(None);
            }
            z = z + 1;
        }
        let remaining = plan.len();
        Ok(JointFlattening { cfg, parents, global, transforms, roots, children, plan, remaining })
    }

    /// The pair whose child comes next: the transform of the parent and
    /// that of the child, both as the model has them. `None` when every
    /// pair is done.
    #[verifier::rlimit(50)]
    pub fn pending(&self) -> (r: Option<(JointTransform, JointTransform)>)
        requires
            self.wf(),
        ensures
            self.is_done() ==> r is None,
            !self.is_done() ==> r == Some(
                (self.global@[self.next_pair().0 as int], self.global@[self.next_pair().1 as int]),
            ),
    {
        let m = self.remaining;
        if m == 0 {
            return None;
        }
        let (master_idx, child_idx) = self.plan[m - 1];
        proof {
            lemma_plan_order(self.parents@, self.cfg, self.plan@, m - 1);
            assert(attaches(self.parents@, self.cfg, master_idx as int, child_idx as int));
        }
        Some((self.transforms[master_idx], self.transforms[child_idx]))
    }

    /// Takes the pending pair from the queue and gives its child the
    /// transform `relative`, which places it relative to its parent.
    #[verifier::rlimit(50)]
    pub fn resolve(&mut self, relative: JointTransform)
        requires
            old(self).wf(),
            !old(self).is_done(),
        ensures
            final(self).wf(),
            final(self).remaining == old(self).remaining - 1,
            final(self).transforms@ == old(self).transforms@.update(
                old(self).next_pair().1 as int,
                relative,
            ),
            *final(self) == (JointFlattening {
                remaining: final(self).remaining,
                transforms: final(self).transforms,
                ..*old(self)
            }),
    {
        let ghost m = self.remaining as int;
        let (_master_idx, child_idx) = self.plan[self.remaining - 1];
        proof {
            assert(attaches(
                self.parents@,
                self.cfg,
                self.plan@[m - 1].0 as int,
                child_idx as int,
            ));
        }
        self.remaining = self.remaining - 1;
        self.transforms.set(child_idx, relative);
        proof {
            assert forall|j: int|
                0 <= j < self.parents@.len() && !is_child_from(
                    self.plan@,
                    m - 1,
                    j,
                ) implies #[trigger] self.transforms@[j] == self.global@[j] by {
                assert(self.plan@[m - 1].1 != j);
                if is_child_from(self.plan@, m, j) {
                    let k = choose|k: int|
                        m <= k < self.plan@.len() && (#[trigger] self.plan@[k]).1 == j;
                    assert(m - 1 <= k < self.plan@.len() && self.plan@[k].1 == j);
                }
            }
        }
    }
}

/// Searches the joints again and again for joints that have no place yet
/// and whose parent has one, gives each a place and notes the pair, until
/// a search finds none. `locked` marks the roots at the start and every
/// joint that has its place at the end.
#[verifier::rlimit(50)]
fn search(parents: &Vec<u8>, cfg: JointOption, locked: Vec<bool>) -> (r: (
    Vec<(usize, usize)>,
    Vec<bool>,
))
    requires
        locked@.len() == parents@.len(),
        forall|k: int|
            0 <= k < parents@.len() ==> #[trigger] locked@[k] == is_root(parents@, cfg, k),
    ensures
        r.1@.len() == parents@.len(),
        forall|z: int| 0 <= z < parents@.len() ==> #[trigger] r.1@[z] == placed(parents@, cfg, z),
        valid_plan(parents@, cfg, r.0@),
{
    let n = parents.len();
    let mut locked = locked;
    let mut tb_rel: Vec<(usize, usize)> = Vec::new();
    let ghost mut depth: Seq<nat> = Seq::new(n as nat, |j: int| 0nat);
    let mut changed = true;
    proof {
        assert forall|j: int| 0 <= j < n && #[trigger] locked@[j] implies reaches_root(
            parents@,
            cfg,
            j,
            depth[j],
        ) by {
            assert(is_root(parents@, cfg, j));
        }
    }
    while changed
        invariant
            n == parents@.len(),
            sound(parents@, cfg, locked@, depth),
            plan_tracks(parents@, cfg, locked@, tb_rel@),
            !changed ==> closed(parents@, locked@),
        decreases count_free(locked@), if changed {
            1int
        } else {
            0int
        },
    {
        changed = false;
        let ghost free = count_free(locked@);
        let mut z: usize = 0;
        while z < n
            invariant
                z <= n,
                n == parents@.len(),
                sound(parents@, cfg, locked@, depth),
                plan_tracks(parents@, cfg, locked@, tb_rel@),
                count_free(locked@) <= free,
                changed ==> count_free(locked@) < free,
                !changed ==> forall|y: int|
                    0 <= y < z ==> #[trigger] closed_below(parents@, locked@, y, n as int),
            decreases n - z,
        {
            let mut j: usize = 0;
            while j < n
                invariant
                    j <= n,
                    z < n,
                    n == parents@.len(),
                    sound(parents@, cfg, locked@, depth),
                    plan_tracks(parents@, cfg, locked@, tb_rel@),
                    count_free(locked@) <= free,
                    changed ==> count_free(locked@) < free,
                    !changed ==> forall|y: int|
                        0 <= y < z ==> #[trigger] closed_below(parents@, locked@, y, n as int),
                    !changed ==> closed_below(parents@, locked@, z as int, j as int),
                decreases n - j,
            {
                if parents[j] as usize == z && locked[z] && !locked[j] {
                    proof {
                        lemma_lock(parents@, cfg, locked@, depth, tb_rel@, z, j);
                        depth = depth.update(j as int, depth[z as int] + 1);
                    }
                    locked.set(j, true);
                    tb_rel.push((z, j));
                    changed = true;
                }
                j = j + 1;
            }
            z = z + 1;
        }
    }
    proof {
        lemma_search_done(parents@, cfg, locked@, depth, tb_rel@);
    }
    (tb_rel, locked)
}

} // verus!
