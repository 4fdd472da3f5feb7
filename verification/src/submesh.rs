//! Submesh ranges and their order.

use std::cmp::Ordering;
use vstd::prelude::*;

verus! {

/// A contiguous range of the triangle index buffer that is drawn as one
/// primitive group. `mesh` is the ordinal id of the group.
#[derive(Clone, Copy, Debug)]
pub struct MeshInstance {
    pub start_index_location: u32,
    pub index_count: u32,
    pub mesh: u32,
}

impl PartialEq for MeshInstance {
    /// Two entries are equal when they have the same id.
    fn eq(&self, other: &Self) -> (r: bool) {
        self.mesh == other.mesh
    }
}

impl vstd::std_specs::cmp::PartialEqSpecImpl for MeshInstance {
    open spec fn obeys_eq_spec() -> bool {
        true
    }

    open spec fn eq_spec(&self, other: &Self) -> bool {
        self.mesh == other.mesh
    }
}

impl Eq for MeshInstance {

}

impl PartialOrd for MeshInstance {
    /// Entries are ordered by their id.
    fn partial_cmp(&self, other: &Self) -> (r: Option<Ordering>) {
        if self.mesh < other.mesh {
            Some(Ordering::Less)
        } else if self.mesh == other.mesh {
            Some(Ordering::Equal)
        } else {
            Some(Ordering::Greater)
        }
    }
}

impl vstd::std_specs::cmp::PartialOrdSpecImpl for MeshInstance {
    open spec fn obeys_partial_cmp_spec() -> bool {
        true
    }

    open spec fn partial_cmp_spec(&self, other: &Self) -> Option<Ordering> {
        if self.mesh < other.mesh {
            Some(Ordering::Less)
        } else if self.mesh == other.mesh {
            Some(Ordering::Equal)
        } else {
            Some(Ordering::Greater)
        }
    }
}

/// Ids never go down from one entry to the next.
pub open spec fn sorted_by_mesh(s: Seq<MeshInstance>) -> bool {
    forall|i: int, j: int| 0 <= i <= j < s.len() ==> s[i].mesh <= s[j].mesh
}

/// Ids go up from each entry to the next.
pub open spec fn strictly_sorted_by_mesh(s: Seq<MeshInstance>) -> bool {
    forall|i: int, j: int| 0 <= i < j < s.len() ==> s[i].mesh < s[j].mesh
}

/// No id occurs twice.
pub open spec fn distinct_meshes(s: Seq<MeshInstance>) -> bool {
    forall|i: int, j: int| 0 <= i < j < s.len() ==> s[i].mesh != s[j].mesh
}

/// Some entry of `s` has the id `id`.
pub open spec fn has_mesh(s: Seq<MeshInstance>, id: u32) -> bool {
    exists|i: int| 0 <= i < s.len() && #[trigger] s[i].mesh == id
}

/// The entries of `s` with the id `id`, in the order in which `s` has them.
pub open spec fn with_mesh(s: Seq<MeshInstance>, id: u32) -> Seq<MeshInstance> {
    s.filter(|m: MeshInstance| m.mesh == id)
}

/// The index counts of all entries added up.
pub open spec fn index_count_sum(s: Seq<MeshInstance>) -> nat
    decreases s.len(),
{
    if s.len() == 0 {
        0
    } else {
        index_count_sum(s.drop_last()) + s.last().index_count as nat
    }
}

/// `x` put into `r` behind the last entry whose id is not above its own.
pub open spec fn insert_by_mesh(r: Seq<MeshInstance>, x: MeshInstance) -> Seq<MeshInstance>
    decreases r.len(),
{
    if r.len() == 0 || r.last().mesh <= x.mesh {
        r.push(x)
    } else {
        insert_by_mesh(r.drop_last(), x).push(r.last())
    }
}

/// The entries of `s` in ascending order of id; entries with the same id
/// keep the order that they have in `s`.
pub open spec fn stable_sort_by_mesh(s: Seq<MeshInstance>) -> Seq<MeshInstance>
    decreases s.len(),
{
    if s.len() == 0 {
        s
    } else {
        insert_by_mesh(stable_sort_by_mesh(s.drop_last()), s.last())
    }
}

/// Where `insert_by_mesh` puts `x`: the number of entries at the front of
/// `r` that stay in front of it.
pub open spec fn insertion_point(r: Seq<MeshInstance>, x: MeshInstance) -> int
    decreases r.len(),
{
    if r.len() == 0 || r.last().mesh <= x.mesh {
        r.len() as int
    } else {
        insertion_point(r.drop_last(), x)
    }
}

proof fn lemma_insertion_point(r: Seq<MeshInstance>, x: MeshInstance)
    ensures
        0 <= insertion_point(r, x) <= r.len(),
        insert_by_mesh(r, x) == r.insert(insertion_point(r, x), x),
        insertion_point(r, x) > 0 ==> r[insertion_point(r, x) - 1].mesh <= x.mesh,
        forall|k: int| insertion_point(r, x) <= k < r.len() ==> r[k].mesh > x.mesh,
    decreases r.len(),
{
    if r.len() == 0 || r.last().mesh <= x.mesh {
        assert(r.insert(r.len() as int, x) =~= r.push(x));
    } else {
        let front = r.drop_last();
        lemma_insertion_point(front, x);
        let p = insertion_point(front, x);
        assert(front.insert(p, x).push(r.last()) =~= r.insert(p, x));
        assert forall|k: int| p <= k < r.len() implies r[k].mesh > x.mesh by {
            if k < front.len() {
                assert(front[k] == r[k]);
            }
        }
    }
}

proof fn lemma_insert_len(r: Seq<MeshInstance>, x: MeshInstance)
    ensures
        insert_by_mesh(r, x).len() == r.len() + 1,
{
    lemma_insertion_point(r, x);
}

proof fn lemma_insert_sorted(r: Seq<MeshInstance>, x: MeshInstance)
    requires
        sorted_by_mesh(r),
    ensures
        sorted_by_mesh(insert_by_mesh(r, x)),
{
    lemma_insertion_point(r, x);
    let p = insertion_point(r, x);
    let out = insert_by_mesh(r, x);
    assert forall|i: int, j: int| 0 <= i <= j < out.len() implies out[i].mesh <= out[j].mesh by {
        if i < p {
            assert(out[i] == r[i]);
            assert(r[i].mesh <= r[p - 1].mesh);
        } else if i > p {
            assert(out[i] == r[i - 1]);
        }
        if j < p {
            assert(out[j] == r[j]);
        } else if j > p {
            assert(out[j] == r[j - 1]);
        }
    }
}

proof fn lemma_insert_has_mesh(r: Seq<MeshInstance>, x: MeshInstance, id: u32)
    ensures
        has_mesh(insert_by_mesh(r, x), id) <==> (has_mesh(r, id) || x.mesh == id),
{
    lemma_insertion_point(r, x);
    let p = insertion_point(r, x);
    let out = insert_by_mesh(r, x);
    if has_mesh(out, id) {
        let i = choose|i: int| 0 <= i < out.len() && #[trigger] out[i].mesh == id;
        if i < p {
            assert(r[i].mesh == id);
        } else if i > p {
            assert(r[i - 1].mesh == id);
        }
    }
    if has_mesh(r, id) {
        let i = choose|i: int| 0 <= i < r.len() && #[trigger] r[i].mesh == id;
        if i < p {
            assert(out[i].mesh == id);
        } else {
            assert(out[i + 1].mesh == id);
        }
    }
    if x.mesh == id {
        assert(out[p].mesh == id);
    }
}

proof fn lemma_insert_strictly_sorted(r: Seq<MeshInstance>, x: MeshInstance)
    requires
        strictly_sorted_by_mesh(r),
        !has_mesh(r, x.mesh),
    ensures
        strictly_sorted_by_mesh(insert_by_mesh(r, x)),
{
    lemma_insertion_point(r, x);
    let p = insertion_point(r, x);
    let out = insert_by_mesh(r, x);
    assert forall|i: int, j: int| 0 <= i < j < out.len() implies out[i].mesh < out[j].mesh by {
        if i < p {
            assert(out[i] == r[i]);
            assert(r[i].mesh <= r[p - 1].mesh);
            assert(r[p - 1].mesh != x.mesh);
        } else if i > p {
            assert(out[i] == r[i - 1]);
        }
        if j < p {
            assert(out[j] == r[j]);
        } else if j > p {
            assert(out[j] == r[j - 1]);
            assert(r[j - 1].mesh != x.mesh);
        }
    }
}

proof fn lemma_insert_sum(r: Seq<MeshInstance>, x: MeshInstance)
    ensures
        index_count_sum(insert_by_mesh(r, x)) == index_count_sum(r) + x.index_count,
    decreases r.len(),
{
    if r.len() == 0 || r.last().mesh <= x.mesh {
        assert(r.push(x).drop_last() =~= r);
    } else {
        let front = r.drop_last();
        lemma_insert_sum(front, x);
        assert(insert_by_mesh(front, x).push(r.last()).drop_last() =~= insert_by_mesh(front, x));
    }
}

proof fn lemma_insert_multiset(r: Seq<MeshInstance>, x: MeshInstance)
    ensures
        insert_by_mesh(r, x).to_multiset() == r.to_multiset().insert(x),
    decreases r.len(),
{
    broadcast use vstd::seq_lib::group_to_multiset_ensures;

    if r.len() == 0 || r.last().mesh <= x.mesh {
    } else {
        let front = r.drop_last();
        lemma_insert_multiset(front, x);
        assert(r =~= front.push(r.last()));
        assert(front.to_multiset().insert(x).insert(r.last()) =~= front.to_multiset().insert(
            r.last(),
        ).insert(x));
    }
}

proof fn lemma_insert_with_mesh(r: Seq<MeshInstance>, x: MeshInstance, id: u32)
    ensures
        with_mesh(insert_by_mesh(r, x), id) == if x.mesh == id {
            with_mesh(r, id).push(x)
        } else {
            with_mesh(r, id)
        },
    decreases r.len(),
{
    reveal(Seq::filter);
    let pred = |m: MeshInstance| m.mesh == id;
    if r.len() == 0 || r.last().mesh <= x.mesh {
        assert(r.push(x).drop_last() =~= r);
    } else {
        let front = r.drop_last();
        lemma_insert_with_mesh(front, x, id);
        let inner = insert_by_mesh(front, x);
        assert(inner.push(r.last()).drop_last() =~= inner);
        assert(r.last().mesh != x.mesh);
    }
}

/// Sorting keeps every entry, puts the ids in ascending order, and leaves
/// entries of one id in the order they came in.
#[verifier::rlimit(50)]
pub proof fn lemma_stable_sort(s: Seq<MeshInstance>)
    ensures
        stable_sort_by_mesh(s).len() == s.len(),
        sorted_by_mesh(stable_sort_by_mesh(s)),
        stable_sort_by_mesh(s).to_multiset() == s.to_multiset(),
        index_count_sum(stable_sort_by_mesh(s)) == index_count_sum(s),
        forall|id: u32| #[trigger] with_mesh(stable_sort_by_mesh(s), id) == with_mesh(s, id),
        forall|id: u32| #[trigger] has_mesh(stable_sort_by_mesh(s), id) == has_mesh(s, id),
    decreases s.len(),
{
    broadcast use vstd::seq_lib::group_to_multiset_ensures;

    if s.len() == 0 {
    } else {
        let front = s.drop_last();
        let x = s.last();
        let r = stable_sort_by_mesh(front);
        lemma_stable_sort(front);
        lemma_insert_len(r, x);
        lemma_insert_sorted(r, x);
        lemma_insert_multiset(r, x);
        lemma_insert_sum(r, x);
        assert(s =~= front.push(x));
        assert forall|id: u32| #[trigger]
            with_mesh(stable_sort_by_mesh(s), id) == with_mesh(s, id) by {
            lemma_insert_with_mesh(r, x, id);
            reveal(Seq::filter);
        }
        assert forall|id: u32| #[trigger]
            has_mesh(stable_sort_by_mesh(s), id) == has_mesh(s, id) by {
            lemma_insert_has_mesh(r, x, id);
            if has_mesh(front, id) {
                let i = choose|i: int| 0 <= i < front.len() && #[trigger] front[i].mesh == id;
                assert(s[i].mesh == id);
            }
            if has_mesh(s, id) {
                let i = choose|i: int| 0 <= i < s.len() && #[trigger] s[i].mesh == id;
                if i < front.len() {
                    assert(front[i].mesh == id);
                }
            }
            if x.mesh == id {
                assert(s[s.len() - 1].mesh == id);
            }
        }
    }
}

/// Where no id occurs twice, sorting puts the ids in strictly ascending
/// order.
pub proof fn lemma_stable_sort_distinct(s: Seq<MeshInstance>)
    requires
        distinct_meshes(s),
    ensures
        strictly_sorted_by_mesh(stable_sort_by_mesh(s)),
    decreases s.len(),
{
    if s.len() == 0 {
    } else {
        let front = s.drop_last();
        let x = s.last();
        lemma_stable_sort_distinct(front);
        lemma_stable_sort(front);
        if has_mesh(front, x.mesh) {
            let i = choose|i: int| 0 <= i < front.len() && #[trigger] front[i].mesh == x.mesh;
            assert(s[i].mesh != s[s.len() - 1].mesh);
        }
        lemma_insert_strictly_sorted(stable_sort_by_mesh(front), x);
    }
}

/// Puts `x` into the sorted vector `v` behind the last entry whose id is
/// not above its own.
fn insert_sorted(v: &mut Vec<MeshInstance>, x: MeshInstance)
    ensures
        final(v)@ == insert_by_mesh(old(v)@, x),
{
    let mut p: usize = v.len();
    assert(v@.take(p as int) =~= v@);
    while p > 0 && v[p - 1].mesh > x.mesh
        invariant
            p <= v.len(),
            v@ == old(v)@,
            insertion_point(v@, x) == insertion_point(v@.take(p as int), x),
        decreases p,
    {
        assert(v@.take(p as int).drop_last() =~= v@.take(p as int - 1));
        p = p - 1;
    }
    proof {
        lemma_insertion_point(v@, x);
    }
    v.insert(p, x);
}

/// Sorts the entries by id, ascending; entries with the same id keep
/// their order.
pub fn sort_by_mesh(v: Vec<MeshInstance>) -> (r: Vec<MeshInstance>)
    ensures
        r@ == stable_sort_by_mesh(v@),
{
    let mut out: Vec<MeshInstance> = Vec::new();
    let mut i: usize = 0;
    while i < v.len()
        invariant
            i <= v.len(),
            out@ == stable_sort_by_mesh(v@.take(i as int)),
        decreases v.len() - i,
    {
        assert(v@.take(i as int + 1).drop_last() =~= v@.take(i as int));
        insert_sorted(&mut out, v[i]);
        i = i + 1;
    }
    assert(v@.take(v.len() as int) =~= v@);
    out
}

} // verus!
