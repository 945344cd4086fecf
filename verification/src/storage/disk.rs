//! Where pages lie in the data file. The file itself is read and written by
//! whoever owns the database; this module only says where, and shapes the
//! buffer that a page is read into.

use crate::storage::page::{PageId, PAGE_SIZE};
use vstd::prelude::*;

verus! {

/// Byte offset of a page in the data file: pages lie one after the other
/// from the start of the file.
pub fn page_offset(page_id: PageId) -> (offset: u64)
    ensures
        offset == page_id as int * PAGE_SIZE as int,
{
    assert(page_id as int * PAGE_SIZE as int <= u64::MAX) by (nonlinear_arith)
        requires
            page_id <= u32::MAX,
            PAGE_SIZE == 8192,
    ;
    page_id as u64 * PAGE_SIZE as u64
}

/// A buffer brought to the size of a page: its first `PAGE_SIZE` bytes,
/// with zeros where it is shorter.
pub open spec fn sized(buffer: Seq<u8>) -> Seq<u8> {
    Seq::new(
        PAGE_SIZE as nat,
        |k: int|
            if k < buffer.len() {
                buffer[k]
            } else {
                0u8
            },
    )
}

/// Gives a buffer the size of a page: a longer one is cut, a shorter one is
/// filled up with zeros. Before a read this makes room for the page; after
/// a read that ended early it leaves zeros behind what was read.
pub fn page_buffer(buffer: Vec<u8>) -> (page: Vec<u8>)
    ensures
        page@ == sized(buffer@),
{
    let mut page = buffer;
    page.truncate(PAGE_SIZE);
    while page.len() < PAGE_SIZE
        invariant
            page@.len() <= PAGE_SIZE,
            buffer@.len() <= page@.len() || page@.len() == PAGE_SIZE,
            forall|k: int| 0 <= k < page@.len() ==> page@[k] == sized(buffer@)[k],
        decreases PAGE_SIZE - page@.len(),
    {
        page.push(0u8);
    }
    assert(page@ =~= sized(buffer@));
    page
}

} // verus!
