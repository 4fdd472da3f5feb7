//! The vertex block of a model and the attribute arrays that it holds.

use crate::buf::{le_u16, le_u32};
use crate::cursor::{
    lemma_moves_read_from, lemma_reads_read_from, reads_from, ByteCursor, CursorView,
};
use crate::error::Malformed;
use crate::format::{lemma_open_table_at, open_table, spec_open_table, TableHeader};
use vstd::prelude::*;

verus! {

/// Where, from the start of the meta block, the pointer to the vertex
/// table stands.
pub const VERTEX_META: u32 = 12;

/// The vertex table as the file has it: how many vertices, how many bytes
/// each, and the bytes of all of them.
pub struct VertexBlock {
    pub count: u32,
    pub size: u32,
    pub bytes: Seq<u8>,
}

/// The vertex table that the meta block at `meta` points to, read with a
/// cursor that has not yet passed the meta block.
pub open spec fn spec_vertex_block(c: CursorView, meta: u32) -> Result<VertexBlock, Malformed> {
    match c.seek_absolute(meta as nat) {
        Err(e) => Err(e),
        Ok(c1) => match c1.skip(VERTEX_META as nat) {
            Err(e) => Err(e),
            Ok(c2) => match c2.read_u32() {
                Err(e) => Err(e),
                Ok((ptr, c3)) => match spec_open_table(c3, ptr) {
                    Err(e) => Err(e),
                    Ok((h, c4)) => match c4.read_bytes(h.count as nat * h.stride as nat) {
                        Err(e) => Err(e),
                        Ok((bytes, c5)) => Ok(VertexBlock { count: h.count, size: h.stride, bytes }),
                    },
                },
            },
        },
    }
}

/// The pointer to the vertex table stands 12 bytes into the meta block;
/// the table's header says how many vertices there are and how large each
/// is; and the vertices are the bytes from the pointer on.
#[verifier::rlimit(50)]
pub proof fn lemma_vertex_block_at(c: CursorView, data: Seq<u8>, meta: u32)
    requires
        reads_from(c, data),
        spec_vertex_block(c, meta) is Ok,
    ensures
        ({
            let ptr = le_u32(data.skip(meta + VERTEX_META));
            let block = spec_vertex_block(c, meta)->Ok_0;
            &&& ptr >= 8
            &&& block.count == le_u32(data.skip(ptr - 8))
            &&& block.size == le_u32(data.skip(ptr - 4))
            &&& block.bytes == data.subrange(ptr as int, ptr + block.count * block.size)
        }),
{
    lemma_moves_read_from(c, data, meta as nat);
    let c1 = c.seek_absolute(meta as nat)->Ok_0;
    lemma_moves_read_from(c1, data, VERTEX_META as nat);
    let c2 = c1.skip(VERTEX_META as nat)->Ok_0;
    lemma_reads_read_from(c2, data);
    let (ptr, c3) = c2.read_u32()->Ok_0;
    lemma_open_table_at(c3, data, ptr);
    let (h, c4) = spec_open_table(c3, ptr)->Ok_0;
    lemma_moves_read_from(c4, data, h.count as nat * h.stride as nat);
}

/// The kinds of component that a vertex can be made of.
#[derive(Clone, Copy, Debug, PartialEq, Eq, Structural)]
pub enum UniqueIdentifier {
    /// Position: four half-precision numbers.
    P4h,
    /// Normal: four bytes.
    N4b,
    /// Tangent: four bytes.
    G4b,
    /// Binormal: four bytes.
    B4b,
    /// Texture coordinate: two half-precision numbers.
    T2h,
    /// Joint indices: four bytes.
    I4b,
    /// Joint weights: four bytes.
    W4b,
    /// Four bytes of unknown use.
    C4c,
}

impl UniqueIdentifier {
    /// Number of bytes that a component of this kind takes.
    pub open spec fn spec_size(self) -> nat {
        match self {
            UniqueIdentifier::P4h => 8,
            _ => 4,
        }
    }

    /// Number of bytes that a component of this kind takes.
    #[verifier::when_used_as_spec(spec_size_u32)]
    pub fn size(self) -> (n: u32)
        ensures
            n == self.spec_size(),
    {
        match self {
            UniqueIdentifier::P4h => 8,
            _ => 4,
        }
    }

    /// Number of bytes that a component of this kind takes.
    pub open spec fn spec_size_u32(self) -> u32 {
        self.spec_size() as u32
    }
}

/// Number of bytes that a vertex of the given layout takes.
pub open spec fn layout_size(layout: Seq<UniqueIdentifier>) -> nat
    decreases layout.len(),
{
    if layout.len() == 0 {
        0
    } else {
        layout_size(layout.drop_last()) + layout.last().spec_size()
    }
}

/// Where, within one vertex, the components of the given kind start, in
/// the order of the layout.
pub open spec fn offsets_of(layout: Seq<UniqueIdentifier>, kind: UniqueIdentifier) -> Seq<nat>
    decreases layout.len(),
{
    if layout.len() == 0 {
        Seq::empty()
    } else if layout.last() == kind {
        offsets_of(layout.drop_last(), kind).push(layout_size(layout.drop_last()))
    } else {
        offsets_of(layout.drop_last(), kind)
    }
}

/// Where, within one vertex, the component number `set` of the given kind
/// starts, if the layout has that many.
pub open spec fn component_offset(
    layout: Seq<UniqueIdentifier>,
    kind: UniqueIdentifier,
    set: nat,
) -> Option<nat> {
    if set < offsets_of(layout, kind).len() {
        Some(offsets_of(layout, kind)[set as int])
    } else {
        None
    }
}

proof fn lemma_layout_size_take(layout: Seq<UniqueIdentifier>, i: int)
    requires
        0 <= i <= layout.len(),
    ensures
        layout_size(layout.take(i)) <= layout_size(layout),
    decreases layout.len() - i,
{
    if i < layout.len() {
        lemma_layout_size_take(layout, i + 1);
        assert(layout.take(i + 1).drop_last() =~= layout.take(i));
    } else {
        assert(layout.take(i) =~= layout);
    }
}

/// Every component lies within the vertex.
proof fn lemma_offsets_within(layout: Seq<UniqueIdentifier>, kind: UniqueIdentifier, k: int)
    requires
        0 <= k < offsets_of(layout, kind).len(),
    ensures
        offsets_of(layout, kind)[k] + kind.spec_size() <= layout_size(layout),
    decreases layout.len(),
{
    if layout.len() == 0 {
    } else {
        let front = layout.drop_last();
        if layout.last() == kind {
            if k < offsets_of(front, kind).len() {
                lemma_offsets_within(front, kind, k);
            }
        } else {
            lemma_offsets_within(front, kind, k);
        }
    }
}

/// A value that is decoded from one component of a vertex.
pub trait VertexAttribute: Sized {
    /// The kind of component that holds such a value.
    spec fn kind() -> UniqueIdentifier;

    /// Whether `self` is what the bytes of such a component stand for.
    spec fn decodes(self, bytes: Seq<u8>) -> bool;

    /// The kind of component that holds such a value.
    fn id() -> (k: UniqueIdentifier)
        ensures
            k == Self::kind(),
    ;

    /// Decodes the component that starts at `at`.
    fn read(block: &Vec<u8>, at: usize) -> (v: Self)
        requires
            at + Self::kind().spec_size() <= block.len(),
        ensures
            v.decodes(block@.subrange(at as int, at + Self::kind().spec_size())),
    ;
}

/// A position; `pos` holds the bit patterns of four half-precision
/// numbers.
#[derive(Clone, Copy, Debug, PartialEq, Eq)]
pub struct P4h {
    pub pos: [u16; 4],
}

/// A normal, one byte for each component.
#[derive(Clone, Copy, Debug, PartialEq, Eq)]
pub struct N4b {
    pub normals: [u8; 4],
}

/// A tangent, one byte for each component.
#[derive(Clone, Copy, Debug, PartialEq, Eq)]
pub struct G4b {
    pub tangent: [u8; 4],
}

/// A binormal, one byte for each component.
#[derive(Clone, Copy, Debug, PartialEq, Eq)]
pub struct B4b {
    pub binormal: [u8; 4],
}

/// A texture coordinate; `tex` holds the bit patterns of two
/// half-precision numbers.
#[derive(Clone, Copy, Debug, PartialEq, Eq)]
pub struct T2h {
    pub tex: [u16; 2],
}

/// The joints that move a vertex.
#[derive(Clone, Copy, Debug, PartialEq, Eq)]
pub struct I4b {
    pub blend_idx: [u8; 4],
}

/// How much each of its joints moves a vertex.
#[derive(Clone, Copy, Debug, PartialEq, Eq)]
pub struct W4b {
    pub blend_weight: [u8; 4],
}

/// Four bytes of unknown use.
#[derive(Clone, Copy, Debug, PartialEq, Eq)]
pub struct C4c {
    pub unknown: [u8; 4],
}

/// Reads four bytes as they stand.
fn read_quad(block: &Vec<u8>, at: usize) -> (q: [u8; 4])
    requires
        at + 4 <= block.len(),
    ensures
        q@ == block@.subrange(at as int, at + 4),
{
    let q = [block[at], block[at + 1], block[at + 2], block[at + 3]];
    assert(q@ =~= block@.subrange(at as int, at + 4));
    q
}

/// Reads two bytes as a little-endian number.
fn read_half(block: &Vec<u8>, at: usize) -> (h: u16)
    requires
        at + 2 <= block.len(),
    ensures
        h == le_u16(block@.skip(at as int)),
{
    block[at] as u16 + (block[at + 1] as u16) * 256
}

impl VertexAttribute for P4h {
    open spec fn kind() -> UniqueIdentifier {
        UniqueIdentifier::P4h
    }

    open spec fn decodes(self, bytes: Seq<u8>) -> bool {
        self.pos@ == seq![
            le_u16(bytes),
            le_u16(bytes.skip(2)),
            le_u16(bytes.skip(4)),
            le_u16(bytes.skip(6)),
        ]
    }

    fn id() -> (k: UniqueIdentifier) {
        UniqueIdentifier::P4h
    }

    fn read(block: &Vec<u8>, at: usize) -> (v: Self) {
        let v = P4h {
            pos: [
                read_half(block, at),
                read_half(block, at + 2),
                read_half(block, at + 4),
                read_half(block, at + 6),
            ],
        };
        proof {
            let bytes = block@.subrange(at as int, at + 8);
            assert(v.pos@ =~= seq![
                le_u16(bytes),
                le_u16(bytes.skip(2)),
                le_u16(bytes.skip(4)),
                le_u16(bytes.skip(6)),
            ]);
        }
        v
    }
}

impl VertexAttribute for T2h {
    open spec fn kind() -> UniqueIdentifier {
        UniqueIdentifier::T2h
    }

    open spec fn decodes(self, bytes: Seq<u8>) -> bool {
        self.tex@ == seq![le_u16(bytes), le_u16(bytes.skip(2))]
    }

    fn id() -> (k: UniqueIdentifier) {
        UniqueIdentifier::T2h
    }

    fn read(block: &Vec<u8>, at: usize) -> (v: Self) {
        let v = T2h { tex: [read_half(block, at), read_half(block, at + 2)] };
        proof {
            let bytes = block@.subrange(at as int, at + 4);
            assert(v.tex@ =~= seq![le_u16(bytes), le_u16(bytes.skip(2))]);
        }
        v
    }
}

impl VertexAttribute for N4b {
    open spec fn kind() -> UniqueIdentifier {
        UniqueIdentifier::N4b
    }

    open spec fn decodes(self, bytes: Seq<u8>) -> bool {
        self.normals@ == bytes
    }

    fn id() -> (k: UniqueIdentifier) {
        UniqueIdentifier::N4b
    }

    fn read(block: &Vec<u8>, at: usize) -> (v: Self) {
        N4b { normals: read_quad(block, at) }
    }
}

impl VertexAttribute for G4b {
    open spec fn kind() -> UniqueIdentifier {
        UniqueIdentifier::G4b
    }

    open spec fn decodes(self, bytes: Seq<u8>) -> bool {
        self.tangent@ == bytes
    }

    fn id() -> (k: UniqueIdentifier) {
        UniqueIdentifier::G4b
    }

    fn read(block: &Vec<u8>, at: usize) -> (v: Self) {
        G4b { tangent: read_quad(block, at) }
    }
}

impl VertexAttribute for B4b {
    open spec fn kind() -> UniqueIdentifier {
        UniqueIdentifier::B4b
    }

    open spec fn decodes(self, bytes: Seq<u8>) -> bool {
        self.binormal@ == bytes
    }

    fn id() -> (k: UniqueIdentifier) {
        UniqueIdentifier::B4b
    }

    fn read(block: &Vec<u8>, at: usize) -> (v: Self) {
        B4b { binormal: read_quad(block, at) }
    }
}

impl VertexAttribute for I4b {
    open spec fn kind() -> UniqueIdentifier {
        UniqueIdentifier::I4b
    }

    open spec fn decodes(self, bytes: Seq<u8>) -> bool {
        self.blend_idx@ == bytes
    }

    fn id() -> (k: UniqueIdentifier) {
        UniqueIdentifier::I4b
    }

    fn read(block: &Vec<u8>, at: usize) -> (v: Self) {
        I4b { blend_idx: read_quad(block, at) }
    }
}

impl VertexAttribute for W4b {
    open spec fn kind() -> UniqueIdentifier {
        UniqueIdentifier::W4b
    }

    open spec fn decodes(self, bytes: Seq<u8>) -> bool {
        self.blend_weight@ == bytes
    }

    fn id() -> (k: UniqueIdentifier) {
        UniqueIdentifier::W4b
    }

    fn read(block: &Vec<u8>, at: usize) -> (v: Self) {
        W4b { blend_weight: read_quad(block, at) }
    }
}

impl VertexAttribute for C4c {
    open spec fn kind() -> UniqueIdentifier {
        UniqueIdentifier::C4c
    }

    open spec fn decodes(self, bytes: Seq<u8>) -> bool {
        self.unknown@ == bytes
    }

    fn id() -> (k: UniqueIdentifier) {
        UniqueIdentifier::C4c
    }

    fn read(block: &Vec<u8>, at: usize) -> (v: Self) {
        C4c { unknown: read_quad(block, at) }
    }
}

impl W4b {
    /// The four weights added up.
    pub open spec fn spec_sum(self) -> nat {
        (self.blend_weight[0] + self.blend_weight[1] + self.blend_weight[2]
            + self.blend_weight[3]) as nat
    }

    /// The four weights added up.
    pub fn sum(&self) -> (s: u32)
        ensures
            s == self.spec_sum(),
    {
        self.blend_weight[0] as u32 + self.blend_weight[1] as u32 + self.blend_weight[2] as u32
            + self.blend_weight[3] as u32
    }
}

/// The vertices of a model: their number, the size of one vertex in
/// bytes, the interleaved attribute data, and the order of the components
/// that make up one vertex. The layout is empty until it is set.
#[derive(Debug)]
pub struct VertexFormat2 {
    vertex_count: u32,
    vertex_size: u32,
    block: Vec<u8>,
    layout: Vec<UniqueIdentifier>,
}

impl VertexFormat2 {
    #[verifier::type_invariant]
    spec fn inv(self) -> bool {
        &&& self.block@.len() == self.vertex_count as nat * self.vertex_size as nat
        &&& self.layout@.len() > 0 ==> layout_size(self.layout@) == self.vertex_size
    }

    /// Number of vertices.
    pub closed spec fn spec_len(&self) -> u32 {
        self.vertex_count
    }

    /// Size of one vertex in bytes.
    pub closed spec fn spec_size(&self) -> u32 {
        self.vertex_size
    }

    /// The bytes of all vertices, one vertex after the other.
    pub closed spec fn bytes(&self) -> Seq<u8> {
        self.block@
    }

    /// The components that make up one vertex, in their order.
    pub closed spec fn layout(&self) -> Seq<UniqueIdentifier> {
        self.layout@
    }

    /// What the container holds, as the file's vertex table.
    pub open spec fn as_block(&self) -> VertexBlock {
        VertexBlock { count: self.spec_len(), size: self.spec_size(), bytes: self.bytes() }
    }

    /// The `n` bytes that start `off` bytes into vertex number `v`.
    pub open spec fn component_bytes(&self, v: int, off: nat, n: nat) -> Seq<u8> {
        self.bytes().subrange(v * self.spec_size() + off, v * self.spec_size() + off + n)
    }

    /// Byte number `k` of the component number `set` of the given kind of
    /// vertex number `v`.
    pub open spec fn component_byte(&self, kind: UniqueIdentifier, set: nat, v: int, k: int) -> u8 {
        self.component_bytes(
            v,
            component_offset(self.layout(), kind, set)->Some_0,
            kind.spec_size(),
        )[k]
    }

    /// Number of vertices.
    #[verifier::when_used_as_spec(spec_len)]
    pub fn len(&self) -> (n: u32)
        ensures
            n == self.spec_len(),
    {
        self.vertex_count
    }

    /// Size of one vertex in bytes.
    #[verifier::when_used_as_spec(spec_size)]
    pub fn get_size(&self) -> (n: u32)
        ensures
            n == self.spec_size(),
    {
        self.vertex_size
    }

    /// Reads the vertex table that the meta block at `meta` points to. The
    /// layout of the vertices is left open.
    #[verifier::rlimit(50)]
    pub fn read_format(mut c: ByteCursor, meta: u32) -> (r: Result<VertexFormat2, Malformed>)
        requires
            c.wf(),
        ensures
            match spec_vertex_block(c@, meta) {
                Ok(b) => r is Ok && r->Ok_0.as_block() == b && r->Ok_0.layout().len() == 0,
                Err(e) => r is Err && r->Err_0 == e,
            },
    {
        c.seek_absolute(meta)?;
        c.skip(VERTEX_META as usize)?;
        let ptr = c.read_u32()?;
        let h: TableHeader = open_table(&mut c, ptr)?;
        assert(h.count as u64 * h.stride as u64 <= 0xFFFF_FFFF * 0xFFFF_FFFF) by (nonlinear_arith)
            requires
                h.count <= 0xFFFF_FFFF,
                h.stride <= 0xFFFF_FFFF,
        ;
        let total: u64 = (h.count as u64) * (h.stride as u64);
        if total > c.remaining() as u64 {
            return Err(Malformed::Truncated);
        }
        let block = c.read_bytes(total as usize)?;
        Ok(VertexFormat2 { vertex_count: h.count, vertex_size: h.stride, block, layout: Vec::new() })
    }

    /// Says which components make up one vertex. A layout that does not
    /// add up to the vertex size, or has no component, is refused and
    /// changes nothing.
    #[verifier::rlimit(50)]
    pub fn set_layout(&mut self, layout: Vec<UniqueIdentifier>) -> (r: Result<(), Malformed>)
        ensures
            final(self).as_block() == old(self).as_block(),
            layout@.len() > 0 && layout_size(layout@) == old(self).spec_size() ==> r is Ok
                && final(self).layout() == layout@,
            !(layout@.len() > 0 && layout_size(layout@) == old(self).spec_size()) ==> r
                == Err::<(), Malformed>(Malformed::VertexLayout) && final(self).layout() == old(
                self,
            ).layout(),
    {
        proof {
            use_type_invariant(&*self);
        }
        if layout.len() == 0 {
            return Err(Malformed::VertexLayout);
        }
        let mut total: u32 = 0;
        let mut i: usize = 0;
        while i < layout.len()
            invariant
                i <= layout.len(),
                total == layout_size(layout@.take(i as int)),
                total <= self.vertex_size,
            decreases layout.len() - i,
        {
            let sz = layout[i].size();
            proof {
                assert(layout@.take(i as int + 1).drop_last() =~= layout@.take(i as int));
                lemma_layout_size_take(layout@, i as int + 1);
            }
            if sz > self.vertex_size - total {
                return Err(Malformed::VertexLayout);
            }
            total = total + sz;
            i = i + 1;
        }
        assert(layout@.take(layout.len() as int) =~= layout@);
        if total != self.vertex_size {
            return Err(Malformed::VertexLayout);
        }
        self.layout = layout;
        Ok(())
    }

    /// Where, within one vertex, the components of the given kind start.
    #[verifier::rlimit(50)]
    pub fn find(&self, kind: UniqueIdentifier) -> (r: Vec<u32>)
        ensures
            r@.len() == offsets_of(self.layout(), kind).len(),
            forall|k: int| 0 <= k < r@.len() ==> r@[k] == offsets_of(self.layout(), kind)[k],
    {
        proof {
            use_type_invariant(self);
        }
        let mut out: Vec<u32> = Vec::new();
        let mut off: u32 = 0;
        let mut i: usize = 0;
        while i < self.layout.len()
            invariant
                i <= self.layout.len(),
                self.layout@.len() > 0 ==> layout_size(self.layout@) == self.vertex_size,
                off == layout_size(self.layout@.take(i as int)),
                out@.len() == offsets_of(self.layout@.take(i as int), kind).len(),
                forall|k: int|
                    0 <= k < out@.len() ==> out@[k] == offsets_of(
                        self.layout@.take(i as int),
                        kind,
                    )[k],
            decreases self.layout.len() - i,
        {
            proof {
                assert(self.layout@.take(i as int + 1).drop_last() =~= self.layout@.take(i as int));
                lemma_layout_size_take(self.layout@, i as int + 1);
            }
            if self.layout[i] == kind {
                out.push(off);
            }
            off = off + self.layout[i].size();
            i = i + 1;
        }
        assert(self.layout@.take(self.layout.len() as int) =~= self.layout@);
        out
    }

    /// The attribute that the component number `set` of its kind holds,
    /// for every vertex; `None` where the layout has no such component.
    #[verifier::rlimit(50)]
    pub fn iter<T: VertexAttribute>(&self, set: usize) -> (r: Option<Vec<T>>)
        ensures
            match component_offset(self.layout(), T::kind(), set as nat) {
                None => r is None,
                Some(off) => r is Some && r->Some_0@.len() == self.spec_len() && forall|v: int|
                    0 <= v < self.spec_len() ==> (#[trigger] r->Some_0@[v]).decodes(
                        self.component_bytes(v, off, T::kind().spec_size()),
                    ),
            },
    {
        proof {
            use_type_invariant(self);
        }
        let kind = T::id();
        let offsets = self.find(kind);
        if set >= offsets.len() {
            return None;
        }
        let off = offsets[set];
        proof {
            lemma_offsets_within(self.layout@, kind, set as int);
        }
        let size = self.vertex_size;
        let mut out: Vec<T> = Vec::new();
        let mut v: u32 = 0;
        while v < self.vertex_count
            invariant
                v <= self.vertex_count,
                size == self.vertex_size,
                kind == T::kind(),
                self.block.len() == self.vertex_count as nat * size as nat,
                off + kind.spec_size() <= size,
                out@.len() == v,
                forall|w: int|
                    0 <= w < v ==> (#[trigger] out@[w]).decodes(
                        self.component_bytes(w, off as nat, kind.spec_size()),
                    ),
            decreases self.vertex_count - v,
        {
            assert((v + 1) * size <= self.vertex_count * size) by (nonlinear_arith)
                requires
                    v < self.vertex_count,
            ;
            assert(v * size + size == (v + 1) * size) by (nonlinear_arith);
            assert(0 <= v * size) by (nonlinear_arith);
            let at: usize = (v as usize) * (size as usize) + (off as usize);
            let a = T::read(&self.block, at);
            out.push(a);
            v = v + 1;
        }
        Some(out)
    }

    /// The weights of vertices that come without weights: each vertex
    /// hangs on the first of its joints alone.
    pub fn w4b_default_iter(&self) -> (r: Vec<W4b>)
        ensures
            r@.len() == self.spec_len(),
            forall|v: int| 0 <= v < r@.len() ==> (#[trigger] r@[v]).blend_weight@ == seq![255u8, 0u8, 0u8, 0u8],
    {
        let mut out: Vec<W4b> = Vec::new();
        let mut v: u32 = 0;
        while v < self.vertex_count
            invariant
                v <= self.vertex_count,
                out@.len() == v,
                forall|w: int| 0 <= w < v ==> (#[trigger] out@[w]).blend_weight@ == seq![255u8, 0u8, 0u8, 0u8],
            decreases self.vertex_count - v,
        {
            let w = W4b { blend_weight: [255, 0, 0, 0] };
            assert(w.blend_weight@ =~= seq![255u8, 0u8, 0u8, 0u8]);
            out.push(w);
            v = v + 1;
        }
        out
    }
}

} // verus!
