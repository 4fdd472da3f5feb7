//! The layout of a model file: where its tables lie and how they are read.

use crate::buf::le_u32;
use crate::cursor::{
    lemma_moves_read_from, lemma_reads_read_from, reads_from, ByteCursor, CursorView,
};
use crate::error::Malformed;
use vstd::prelude::*;

verus! {

/// Every table is preceded by this many bytes of header (count and
/// stride); a pointer to a table points just past that header.
pub const TABLE_HEADER_SIZE: u32 = 8;

/// Number of records in a table and the size of each of them.
#[derive(Clone, Copy, Debug, PartialEq, Eq, Structural)]
pub struct TableHeader {
    pub count: u32,
    pub stride: u32,
}

/// The cursor moved to the header in front of the table at `ptr`, and the
/// header read.
pub open spec fn spec_open_table(c: CursorView, ptr: u32) -> Result<(TableHeader, CursorView), Malformed> {
    if ptr < TABLE_HEADER_SIZE {
        Err(Malformed::InvalidOffset)
    } else {
        match c.seek_absolute((ptr - TABLE_HEADER_SIZE) as nat) {
            Err(e) => Err(e),
            Ok(c1) => match c1.read_u32() {
                Err(e) => Err(e),
                Ok((count, c2)) => match c2.read_u32() {
                    Err(e) => Err(e),
                    Ok((stride, c3)) => Ok((TableHeader { count, stride }, c3)),
                },
            },
        }
    }
}

/// The header of the table at `ptr` stands in the eight bytes before
/// `ptr`, and the cursor that has read it stands at `ptr`.
pub proof fn lemma_open_table_at(c: CursorView, data: Seq<u8>, ptr: u32)
    requires
        reads_from(c, data),
        spec_open_table(c, ptr) is Ok,
    ensures
        ptr >= TABLE_HEADER_SIZE,
        spec_open_table(c, ptr)->Ok_0.0.count == le_u32(data.skip(ptr - 8)),
        spec_open_table(c, ptr)->Ok_0.0.stride == le_u32(data.skip(ptr - 4)),
        reads_from(spec_open_table(c, ptr)->Ok_0.1, data),
        spec_open_table(c, ptr)->Ok_0.1.consumed == ptr,
{
    let c1 = c.seek_absolute((ptr - TABLE_HEADER_SIZE) as nat)->Ok_0;
    lemma_moves_read_from(c, data, (ptr - TABLE_HEADER_SIZE) as nat);
    lemma_reads_read_from(c1, data);
    let c2 = c1.read_u32()->Ok_0.1;
    lemma_reads_read_from(c2, data);
}

/// Follows a table pointer: seeks to the header in front of the table and
/// reads it. On success the cursor stands at the first record.
pub fn open_table(c: &mut ByteCursor, ptr: u32) -> (r: Result<TableHeader, Malformed>)
    requires
        old(c).wf(),
    ensures
        final(c).wf(),
        match spec_open_table(old(c)@, ptr) {
            Ok((h, next)) => r == Ok::<TableHeader, Malformed>(h) && final(c)@ == next,
            Err(e) => r == Err::<TableHeader, Malformed>(e),
        },
{
    if ptr < TABLE_HEADER_SIZE {
        return Err(Malformed::InvalidOffset);
    }
    c.seek_absolute(ptr - TABLE_HEADER_SIZE)?;
    let count = c.read_u32()?;
    let stride = c.read_u32()?;
    Ok(TableHeader { count, stride })
}

} // verus!
