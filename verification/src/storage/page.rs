//! The slotted page: a two-byte tuple count followed by length-prefixed
//! records, packed from the front and only ever appended to.

use vstd::prelude::*;

verus! {

/// Size in bytes of one page, on disk and in a buffer-pool frame.
pub const PAGE_SIZE: usize = 8192;

/// Size in bytes of the header at the start of a page.
pub const HEADER_SIZE: usize = 2;

/// Size in bytes of the length prefix in front of each record.
pub const LEN_PREFIX: usize = 2;

pub type PageId = u32;

/// The little-endian 16-bit number stored at `at` and `at + 1`.
pub open spec fn le16_at(bytes: Seq<u8>, at: int) -> int {
    bytes[at] as int + 256 * (bytes[at + 1] as int)
}

/// The two bytes that store `n` in little-endian order.
pub open spec fn le16_bytes(n: int) -> Seq<u8> {
    seq![(n % 256) as u8, (n / 256) as u8]
}

/// Offset of the length prefix of record `slot`. Record 0 starts right after
/// the header; each later one starts where its predecessor's payload ends.
pub open spec fn record_offset(bytes: Seq<u8>, slot: nat) -> int
    decreases slot,
{
    if slot == 0 {
        HEADER_SIZE as int
    } else {
        let prev = record_offset(bytes, (slot - 1) as nat);
        prev + LEN_PREFIX + le16_at(bytes, prev)
    }
}

/// Payload of record `slot`.
pub open spec fn record_at(bytes: Seq<u8>, slot: nat) -> Seq<u8> {
    let at = record_offset(bytes, slot);
    bytes.subrange(at + LEN_PREFIX, at + LEN_PREFIX + le16_at(bytes, at))
}

/// The first `count` records of a page image, in slot order.
pub open spec fn records(bytes: Seq<u8>, count: nat) -> Seq<Seq<u8>> {
    Seq::new(count, |slot: int| record_at(bytes, slot as nat))
}

/// A page image holds `count` records when it has the size of a page and the
/// records end within it: the sum of `2 + len` over them is at most
/// `PAGE_SIZE - 2`.
pub open spec fn records_fit(bytes: Seq<u8>, count: nat) -> bool {
    bytes.len() == PAGE_SIZE && record_offset(bytes, count) <= PAGE_SIZE
}

/// A page image is valid when the records that its header counts fit.
pub open spec fn valid_image(bytes: Seq<u8>) -> bool {
    bytes.len() == PAGE_SIZE && records_fit(bytes, le16_at(bytes, 0) as nat)
}

/// The image `bytes` with `data` appended as a record at offset `tail`.
pub open spec fn with_record(bytes: Seq<u8>, tail: int, data: Seq<u8>) -> Seq<u8> {
    bytes.subrange(0, tail) + le16_bytes(data.len() as int) + data + bytes.subrange(
        tail + LEN_PREFIX + data.len(),
        bytes.len() as int,
    )
}

/// Every record takes at least its length prefix, so offsets grow by at
/// least two per slot.
pub proof fn lemma_offset_grows(bytes: Seq<u8>, i: nat, j: nat)
    requires
        i <= j,
    ensures
        record_offset(bytes, i) + 2 * (j - i) <= record_offset(bytes, j),
        record_offset(bytes, i) >= HEADER_SIZE,
    decreases j,
{
    if j > 0 {
        if i < j {
            lemma_offset_grows(bytes, i, (j - 1) as nat);
        } else {
            lemma_offset_grows(bytes, (i - 1) as nat, (j - 1) as nat);
        }
    }
}

/// Offsets and payloads of the records in front of `limit` depend only on
/// the bytes between the header and `limit`.
pub proof fn lemma_records_local(a: Seq<u8>, b: Seq<u8>, limit: int, slot: nat)
    requires
        a.len() == b.len(),
        record_offset(a, slot) <= limit <= a.len(),
        forall|k: int| HEADER_SIZE <= k < limit ==> a[k] == b[k],
    ensures
        record_offset(b, slot) == record_offset(a, slot),
        forall|s: nat| s < slot ==> record_at(b, s) == record_at(a, s),
    decreases slot,
{
    if slot > 0 {
        let prev = (slot - 1) as nat;
        lemma_offset_grows(a, prev, slot);
        lemma_records_local(a, b, limit, prev);
        let at = record_offset(a, prev);
        assert(a[at] == b[at] && a[at + 1] == b[at + 1]);
        assert(record_at(b, prev) =~= record_at(a, prev));
    }
}

/// Appending a record behind the tail keeps every earlier record and adds
/// the new one as the last.
pub proof fn lemma_append_record(bytes: Seq<u8>, count: nat, data: Seq<u8>)
    requires
        records_fit(bytes, count),
        record_offset(bytes, count) + LEN_PREFIX + data.len() <= PAGE_SIZE,
    ensures
        records_fit(with_record(bytes, record_offset(bytes, count), data), count + 1),
        record_offset(with_record(bytes, record_offset(bytes, count), data), count + 1)
            == record_offset(bytes, count) + LEN_PREFIX + data.len(),
        records(with_record(bytes, record_offset(bytes, count), data), count + 1) == records(
            bytes,
            count,
        ).push(data),
{
    let tail = record_offset(bytes, count);
    let after = with_record(bytes, tail, data);
    lemma_offset_grows(bytes, 0, count);
    assert(after.len() == PAGE_SIZE);
    assert forall|k: int| HEADER_SIZE <= k < tail implies bytes[k] == after[k] by {}
    lemma_records_local(bytes, after, tail, count);
    let n = data.len() as int;
    assert(after[tail] == (n % 256) as u8);
    assert(after[tail + 1] == (n / 256) as u8);
    assert(le16_at(after, tail) == n);
    assert(record_at(after, count) =~= data);
    assert(records(after, count + 1) =~= records(bytes, count).push(data));
}

/// The image after appending `items` one by one to an image that holds
/// `count` records.
pub open spec fn append_all(bytes: Seq<u8>, count: nat, items: Seq<Seq<u8>>) -> Seq<u8>
    decreases items.len(),
{
    if items.len() == 0 {
        bytes
    } else {
        let init = append_all(bytes, count, items.drop_last());
        with_record(
            init,
            record_offset(init, (count + items.len() - 1) as nat),
            items.last(),
        )
    }
}

/// Each of `items` fits behind the tail at the moment it is appended.
pub open spec fn all_fit(bytes: Seq<u8>, count: nat, items: Seq<Seq<u8>>) -> bool
    decreases items.len(),
{
    items.len() > 0 ==> {
        let init = append_all(bytes, count, items.drop_last());
        &&& all_fit(bytes, count, items.drop_last())
        &&& record_offset(init, (count + items.len() - 1) as nat) + LEN_PREFIX
            + items.last().len() <= PAGE_SIZE
    }
}

/// After any run of inserts that all succeed, the page holds what it held
/// before followed by the inserted tuples in the order of insertion: slot
/// `count + k` reads back exactly the bytes of insert `k`, and the number of
/// records has grown by the number of inserts.
pub proof fn lemma_inserts_read_back(bytes: Seq<u8>, count: nat, items: Seq<Seq<u8>>)
    requires
        records_fit(bytes, count),
        all_fit(bytes, count, items),
    ensures
        records_fit(append_all(bytes, count, items), count + items.len()),
        records(append_all(bytes, count, items), count + items.len()) == records(bytes, count)
            + items,
        forall|k: int|
            0 <= k < items.len() ==> record_at(
                append_all(bytes, count, items),
                (count + k) as nat,
            ) == items[k],
    decreases items.len(),
{
    let all = append_all(bytes, count, items);
    let total = count + items.len();
    if items.len() == 0 {
        assert(records(bytes, count) + items =~= records(bytes, count));
    } else {
        let front = items.drop_last();
        lemma_inserts_read_back(bytes, count, front);
        let init = append_all(bytes, count, front);
        lemma_append_record(init, (count + front.len()) as nat, items.last());
        assert(records(bytes, count) + items =~= (records(bytes, count) + front).push(
            items.last(),
        ));
    }
    assert forall|k: int| 0 <= k < items.len() implies record_at(all, (count + k) as nat)
        == items[k] by {
        assert(records(all, total)[count + k] == (records(bytes, count) + items)[count + k]);
    }
}

/// The image of a page after a tuple is appended to it, with the header
/// counting one record more; or nothing where the tuple does not fit behind
/// the records that are there.
pub open spec fn image_with_tuple(image: Seq<u8>, data: Seq<u8>) -> Option<Seq<u8>> {
    let count = le16_at(image, 0);
    let tail = record_offset(image, count as nat);
    if tail + LEN_PREFIX + data.len() <= PAGE_SIZE {
        Some(
            le16_bytes(count + 1) + with_record(image, tail, data).subrange(
                HEADER_SIZE as int,
                PAGE_SIZE as int,
            ),
        )
    } else {
        None
    }
}

/// Appending a tuple to a valid image gives a valid image that holds the
/// records of the first followed by the tuple.
pub proof fn lemma_image_with_tuple(image: Seq<u8>, data: Seq<u8>)
    requires
        valid_image(image),
        image_with_tuple(image, data) is Some,
    ensures
        valid_image(image_with_tuple(image, data)->0),
        le16_at(image_with_tuple(image, data)->0, 0) == le16_at(image, 0) + 1,
        records(image_with_tuple(image, data)->0, (le16_at(image, 0) + 1) as nat) == records(
            image,
            le16_at(image, 0) as nat,
        ).push(data),
{
    let count = le16_at(image, 0) as nat;
    let tail = record_offset(image, count);
    let body = with_record(image, tail, data);
    let after = image_with_tuple(image, data)->0;
    lemma_append_record(image, count, data);
    lemma_offset_grows(image, 0, count);
    lemma_offset_grows(body, 0, count + 1);
    assert(count + 1 < 65536);
    assert(after.len() == PAGE_SIZE);
    assert(le16_at(after, 0) == count + 1);
    assert forall|k: int| HEADER_SIZE <= k < PAGE_SIZE implies body[k] == after[k] by {}
    lemma_records_local(body, after, PAGE_SIZE as int, count + 1);
    assert(records(after, count + 1) =~= records(body, count + 1));
}

/// The content of a page-sized buffer as an array.
pub fn page_array(data: &[u8]) -> (bytes: [u8; PAGE_SIZE])
    requires
        data@.len() == PAGE_SIZE,
    ensures
        bytes@ == data@,
{
    let mut bytes: [u8; PAGE_SIZE] = [0u8; PAGE_SIZE];
    let mut k: usize = 0;
    while k < PAGE_SIZE
        invariant
            k <= PAGE_SIZE,
            data@.len() == PAGE_SIZE,
            forall|j: int| 0 <= j < k ==> bytes@[j] == data@[j],
        decreases PAGE_SIZE - k,
    {
        bytes[k] = data[k];
        k = k + 1;
    }
    assert(bytes@ =~= data@);
    bytes
}

/// Header of a page.
#[derive(Debug, Copy, Clone)]
pub struct PageHeader {
    pub tuple_count: u16,
}

/// One page held in memory: the decoded header beside the full buffer.
pub struct Page {
    pub header: PageHeader,
    pub data: [u8; PAGE_SIZE],
}

impl Page {
    /// The records that the header counts end within the page.
    pub open spec fn wf(&self) -> bool {
        records_fit(self.data@, self.header.tuple_count as nat)
    }

    /// The stored tuples, by slot.
    pub open spec fn tuples(&self) -> Seq<Seq<u8>> {
        records(self.data@, self.header.tuple_count as nat)
    }

    /// Offset of the first free byte.
    pub open spec fn tail(&self) -> int {
        record_offset(self.data@, self.header.tuple_count as nat)
    }

    /// What the page looks like on disk: the header as it stands now, then the
    /// retained buffer from the end of the header on.
    pub open spec fn image(&self) -> Seq<u8> {
        le16_bytes(self.header.tuple_count as int) + self.data@.subrange(
            HEADER_SIZE as int,
            PAGE_SIZE as int,
        )
    }

    /// The page that loading `bytes` gives: the header decoded from the first
    /// two bytes, the buffer kept whole.
    pub open spec fn loaded(bytes: [u8; PAGE_SIZE]) -> Page {
        Page { header: PageHeader { tuple_count: le16_at(bytes@, 0) as u16 }, data: bytes }
    }

    /// Loading a buffer and serialising it again gives the buffer back: the
    /// bytes behind the header are kept, and the header is written as it was
    /// read.
    pub proof fn lemma_image_roundtrip(bytes: [u8; PAGE_SIZE])
        ensures
            Page::loaded(bytes).image() == bytes@,
            valid_image(bytes@) ==> Page::loaded(bytes).wf(),
    {
        assert(Page::loaded(bytes).image() =~= bytes@);
    }

    /// Offset of record `slot`, found by walking the records in front of it.
    fn offset_of(&self, slot: u16) -> (at: usize)
        requires
            self.wf(),
            slot <= self.header.tuple_count,
        ensures
            at == record_offset(self.data@, slot as nat),
            HEADER_SIZE <= at <= PAGE_SIZE,
    {
        let mut at: usize = HEADER_SIZE;
        let mut i: u16 = 0;
        proof {
            lemma_offset_grows(self.data@, 0, self.header.tuple_count as nat);
        }
        while i < slot
            invariant
                self.wf(),
                i <= slot <= self.header.tuple_count,
                at == record_offset(self.data@, i as nat),
                HEADER_SIZE <= at <= PAGE_SIZE,
            decreases slot - i,
        {
            proof {
                lemma_offset_grows(self.data@, i as nat, (i + 1) as nat);
                lemma_offset_grows(self.data@, (i + 1) as nat, self.header.tuple_count as nat);
            }
            let len: usize = self.data[at] as usize + 256 * (self.data[at + 1] as usize);
            at = at + LEN_PREFIX + len;
            i = i + 1;
        }
        at
    }

    /// Tells whether a buffer is a valid page image, so that `from_bytes`
    /// may be called on it.
    pub fn is_valid(bytes: &[u8; PAGE_SIZE]) -> (ok: bool)
        ensures
            ok == valid_image(bytes@),
    {
        let count: u16 = (bytes[0] as u16) + 256 * (bytes[1] as u16);
        let mut at: usize = HEADER_SIZE;
        let mut i: u16 = 0;
        while i < count
            invariant
                i <= count,
                count == le16_at(bytes@, 0),
                at == record_offset(bytes@, i as nat),
                HEADER_SIZE <= at <= PAGE_SIZE,
            decreases count - i,
        {
            if at + LEN_PREFIX > PAGE_SIZE {
                proof {
                    lemma_offset_grows(bytes@, i as nat, (i + 1) as nat);
                    lemma_offset_grows(bytes@, (i + 1) as nat, count as nat);
                }
                return false;
            }
            let len: usize = bytes[at] as usize + 256 * (bytes[at + 1] as usize);
            if at + LEN_PREFIX + len > PAGE_SIZE {
                proof {
                    lemma_offset_grows(bytes@, (i + 1) as nat, count as nat);
                }
                return false;
            }
            at = at + LEN_PREFIX + len;
            i = i + 1;
        }
        true
    }

    /// Loads a page from a raw buffer: decodes the header and keeps the
    /// buffer whole.
    pub fn from_bytes(bytes: [u8; PAGE_SIZE]) -> (page: Page)
        requires
            valid_image(bytes@),
        ensures
            page == Page::loaded(bytes),
            page.wf(),
            page.image() == bytes@,
    {
        let count: u16 = (bytes[0] as u16) + 256 * (bytes[1] as u16);
        let page = Page { header: PageHeader { tuple_count: count }, data: bytes };
        proof {
            Page::lemma_image_roundtrip(bytes);
        }
        page
    }

    /// Serialises the page: the retained buffer with the header written over
    /// its first two bytes.
    pub fn to_bytes(&self) -> (bytes: [u8; PAGE_SIZE])
        ensures
            bytes@ == self.image(),
    {
        let mut bytes = self.data;
        bytes[0] = (self.header.tuple_count % 256) as u8;
        bytes[1] = (self.header.tuple_count / 256) as u8;
        assert(bytes@ =~= self.image());
        bytes
    }

    /// Appends a tuple behind the last record and returns its slot, or
    /// returns `None` and leaves the page alone when the length prefix and
    /// the payload do not fit behind the tail.
    pub fn insert_tuple(&mut self, tuple_data: &[u8]) -> (slot: Option<u16>)
        requires
            old(self).wf(),
        ensures
            final(self).wf(),
            slot is Some <==> old(self).tail() + LEN_PREFIX + tuple_data@.len() <= PAGE_SIZE,
            slot is None ==> *final(self) == *old(self),
            slot matches Some(id) ==> {
                &&& id == old(self).header.tuple_count
                &&& final(self).header.tuple_count == id + 1
                &&& final(self).data@ == with_record(
                    old(self).data@,
                    old(self).tail(),
                    tuple_data@,
                )
                &&& final(self).tuples() == old(self).tuples().push(tuple_data@)
                &&& final(self).tail() == old(self).tail() + LEN_PREFIX + tuple_data@.len()
            },
    {
        let count: u16 = self.header.tuple_count;
        let tail: usize = self.offset_of(count);
        let len: usize = tuple_data.len();
        if len > PAGE_SIZE || tail + LEN_PREFIX + len > PAGE_SIZE {
            return None;
        }
        let ghost before = self.data@;
        proof {
            lemma_offset_grows(before, 0, count as nat);
        }
        self.data[tail] = (len % 256) as u8;
        self.data[tail + 1] = (len / 256) as u8;
        let mut k: usize = 0;
        while k < len
            invariant
                k <= len == tuple_data@.len(),
                HEADER_SIZE <= tail,
                tail + LEN_PREFIX + len <= PAGE_SIZE,
                self.header.tuple_count == count,
                self.data@.len() == PAGE_SIZE,
                before.len() == PAGE_SIZE,
                forall|j: int| 0 <= j < tail ==> self.data@[j] == before[j],
                self.data@[tail as int] == (len % 256) as u8,
                self.data@[tail + 1] == (len / 256) as u8,
                forall|j: int| 0 <= j < k ==> self.data@[tail + LEN_PREFIX + j] == tuple_data@[j],
                forall|j: int|
                    tail + LEN_PREFIX + k <= j < PAGE_SIZE ==> self.data@[j] == before[j],
            decreases len - k,
        {
            self.data[tail + LEN_PREFIX + k] = tuple_data[k];
            k = k + 1;
        }
        self.header.tuple_count = count + 1;
        proof {
            assert(self.data@ =~= with_record(before, tail as int, tuple_data@));
            lemma_append_record(before, count as nat, tuple_data@);
        }
        Some(count)
    }

    /// The tuple stored in a slot, or `None` for a slot that the page does
    /// not hold.
    pub fn get_tuple(&self, slot_id: u16) -> (tuple: Option<&[u8]>)
        requires
            self.wf(),
        ensures
            slot_id >= self.header.tuple_count ==> tuple is None,
            slot_id < self.header.tuple_count ==> tuple is Some && tuple->0@
                == self.tuples()[slot_id as int],
    {
        if slot_id >= self.header.tuple_count {
            return None;
        }
        let at: usize = self.offset_of(slot_id);
        proof {
            lemma_offset_grows(self.data@, slot_id as nat, (slot_id + 1) as nat);
            lemma_offset_grows(
                self.data@,
                (slot_id + 1) as nat,
                self.header.tuple_count as nat,
            );
        }
        let len: usize = self.data[at] as usize + 256 * (self.data[at + 1] as usize);
        let whole = self.data.as_slice();
        Some(vstd::slice::slice_subrange(whole, at + LEN_PREFIX, at + LEN_PREFIX + len))
    }
}

} // verus!
