//! The bookkeeping of a disk-backed page store: pages are written one after
//! another as records (an 8-byte little-endian length, then the serialized
//! page), and the store keeps each record's byte offset for random access,
//! the side tables of page numberings and supplements that cannot be
//! serialized, and the tags that belong at the end of the last page.
//!
//! Writing and reading the file, and turning pages into bytes and back, is
//! the caller's part.

use vstd::bytes::{
    spec_u64_from_le_bytes, spec_u64_to_le_bytes, u64_from_le_bytes, u64_to_le_bytes,
};
use vstd::prelude::*;

verus! {

/// The bytes of the length prefix of a record.
pub const PREFIX_LEN: u64 = 8;

/// A record: the payload's length as 8 little-endian bytes, then the
/// payload.
pub open spec fn record(payload: Seq<u8>) -> Seq<u8> {
    spec_u64_to_le_bytes(payload.len() as u64) + payload
}

/// The bytes that records with payloads of these lengths take, one after
/// another.
pub open spec fn records_len(lengths: Seq<nat>) -> nat
    decreases lengths.len(),
{
    if lengths.len() == 0 {
        0
    } else {
        records_len(lengths.drop_last()) + PREFIX_LEN as nat + lengths.last()
    }
}

/// The records of `payloads`, one after another.
pub open spec fn records(payloads: Seq<Seq<u8>>) -> Seq<u8>
    decreases payloads.len(),
{
    if payloads.len() == 0 {
        Seq::empty()
    } else {
        records(payloads.drop_last()) + record(payloads.last())
    }
}

/// The payload lengths of `payloads`.
pub open spec fn payload_lengths(payloads: Seq<Seq<u8>>) -> Seq<nat> {
    payloads.map_values(|p: Seq<u8>| p.len())
}

/// The length prefix of a record whose payload has `len` bytes.
pub fn length_prefix(len: u64) -> (bytes: Vec<u8>)
    ensures
        bytes@ == spec_u64_to_le_bytes(len),
        bytes@.len() == PREFIX_LEN,
{
    proof {
        vstd::bytes::lemma_auto_spec_u64_to_from_le_bytes();
    }
    u64_to_le_bytes(len)
}

/// The payload length that a record's prefix gives.
pub fn payload_length(prefix: &[u8]) -> (len: u64)
    requires
        prefix@.len() == PREFIX_LEN,
    ensures
        len == spec_u64_from_le_bytes(prefix@),
{
    u64_from_le_bytes(prefix)
}

/// A record for `payload`: its length prefix, then the payload.
pub fn frame_record(payload: &[u8]) -> (bytes: Vec<u8>)
    requires
        payload@.len() <= u64::MAX,
    ensures
        bytes@ == record(payload@),
{
    let mut bytes = length_prefix(payload.len() as u64);
    let mut i: usize = 0;
    while i < payload.len()
        invariant
            i <= payload@.len(),
            bytes@ == spec_u64_to_le_bytes(payload@.len() as u64) + payload@.take(i as int),
        decreases payload@.len() - i,
    {
        bytes.push(payload[i]);
        proof {
            assert(payload@.take(i as int + 1) =~= payload@.take(i as int).push(payload@[i as int]));
        }
        i += 1;
    }
    proof {
        assert(payload@.take(i as int) =~= payload@);
    }
    bytes
}

/// The prefix of a record gives back the length of its payload.
pub proof fn lemma_prefix_round_trip(payload: Seq<u8>)
    requires
        payload.len() <= u64::MAX,
    ensures
        record(payload).len() == PREFIX_LEN + payload.len(),
        spec_u64_from_le_bytes(record(payload).take(PREFIX_LEN as int)) == payload.len(),
        record(payload).subrange(PREFIX_LEN as int, record(payload).len() as int) == payload,
{
    vstd::bytes::lemma_auto_spec_u64_to_from_le_bytes();
    let prefix = spec_u64_to_le_bytes(payload.len() as u64);
    assert(record(payload).take(PREFIX_LEN as int) =~= prefix);
    assert(record(payload).subrange(PREFIX_LEN as int, record(payload).len() as int) =~= payload);
}

proof fn lemma_records_length(payloads: Seq<Seq<u8>>)
    requires
        forall|i: int| 0 <= i < payloads.len() ==> #[trigger] payloads[i].len() <= u64::MAX,
    ensures
        records(payloads).len() == records_len(payload_lengths(payloads)),
    decreases payloads.len(),
{
    vstd::bytes::lemma_auto_spec_u64_to_from_le_bytes();
    if payloads.len() > 0 {
        let init = payloads.drop_last();
        lemma_records_length(init);
        assert(payload_lengths(payloads).drop_last() =~= payload_lengths(init));
        assert(payloads.last().len() <= u64::MAX);
    }
}

/// In a file of records written one after another, the record of page `i`
/// starts right after the records before it: its prefix there gives back
/// the payload's length, and the payload follows it unchanged.
pub proof fn lemma_record_at_offset(payloads: Seq<Seq<u8>>, i: int)
    requires
        0 <= i < payloads.len(),
        forall|k: int| 0 <= k < payloads.len() ==> #[trigger] payloads[k].len() <= u64::MAX,
    ensures
        ({
            let file = records(payloads);
            let at = records_len(payload_lengths(payloads).take(i));
            let len = payloads[i].len();
            &&& at + PREFIX_LEN + len <= file.len()
            &&& spec_u64_from_le_bytes(file.subrange(at as int, at + PREFIX_LEN)) == len
            &&& file.subrange(at + PREFIX_LEN, at + PREFIX_LEN + len) == payloads[i]
        }),
    decreases payloads.len(),
{
    let n = payloads.len() as int;
    let init = payloads.drop_last();
    assert(forall|k: int| 0 <= k < init.len() ==> init[k] == payloads[k]);
    lemma_records_length(init);
    lemma_records_length(payloads);
    lemma_prefix_round_trip(payloads[i]);
    if i < n - 1 {
        lemma_record_at_offset(init, i);
        assert(payload_lengths(init).take(i) =~= payload_lengths(payloads).take(i));
        let file = records(payloads);
        assert(file == records(init) + record(payloads.last()));
        let at = records_len(payload_lengths(payloads).take(i));
        let len = payloads[i].len();
        assert(file.subrange(at as int, at + PREFIX_LEN) =~= records(init).subrange(
            at as int,
            at + PREFIX_LEN,
        ));
        assert(file.subrange(at + PREFIX_LEN, at + PREFIX_LEN + len) =~= records(init).subrange(
            at + PREFIX_LEN,
            at + PREFIX_LEN + len,
        ));
    } else {
        assert(payload_lengths(payloads).take(i) =~= payload_lengths(init));
        let file = records(payloads);
        let at = records(init).len() as int;
        let rec = record(payloads[i]);
        assert(payloads.last() == payloads[i]);
        assert(file.subrange(at, at + PREFIX_LEN) =~= rec.take(PREFIX_LEN as int));
        assert(file.subrange(at + PREFIX_LEN, at + PREFIX_LEN + payloads[i].len())
            =~= rec.subrange(PREFIX_LEN as int, rec.len() as int));
    }
}

/// Why a page could not be read.
#[derive(Clone, Copy, Debug, PartialEq, Eq, Structural)]
pub enum StoreError {
    /// The page index is not below the page count.
    PageOutOfRange,
}

impl StoreError {
    /// The message that goes with the error.
    pub fn message(&self) -> (s: &'static str)
        ensures
            s@ == "page index out of range"@,
    {
        match self {
            StoreError::PageOutOfRange => "page index out of range",
        }
    }
}

/// The bookkeeping of a page store: where each page's record starts, where
/// the next one goes, the numberings and supplements that pages refer to,
/// and the tags that belong at the end of the last page.
pub struct StoreIndex<N, S, T> {
    write_offset: u64,
    page_count: usize,
    offsets: Vec<u64>,
    numberings: Vec<N>,
    supplements: Vec<S>,
    remaining_tags: Vec<T>,
    lengths: Ghost<Seq<nat>>,
}

impl<N, S, T> StoreIndex<N, S, T> {
    /// Where the next record goes.
    pub closed spec fn write_offset(&self) -> nat {
        self.write_offset as nat
    }

    /// The pages stored.
    pub closed spec fn pages_stored(&self) -> nat {
        self.page_count as nat
    }

    /// Where each record starts, in order; one more than the pages while a
    /// record is being written.
    pub closed spec fn offsets(&self) -> Seq<u64> {
        self.offsets@
    }

    /// The payload lengths of the records written, in order.
    pub closed spec fn lengths(&self) -> Seq<nat> {
        self.lengths@
    }

    /// The numberings that pages refer to.
    pub closed spec fn numberings(&self) -> Seq<N> {
        self.numberings@
    }

    /// The supplements that pages refer to.
    pub closed spec fn supplements(&self) -> Seq<S> {
        self.supplements@
    }

    /// The tags that belong at the end of the last page.
    pub closed spec fn tags_left(&self) -> Seq<T> {
        self.remaining_tags@
    }

    /// Every stored page has its offset.
    pub closed spec fn wf(&self) -> bool {
        self.page_count <= self.offsets@.len()
    }

    /// The records lie one after another from offset 0: each page's record
    /// starts right after the ones before it, and the next goes right after
    /// the last.
    pub open spec fn laid_out(&self) -> bool {
        &&& self.offsets().len() == self.pages_stored()
        &&& self.lengths().len() == self.pages_stored()
        &&& forall|i: int|
            0 <= i < self.pages_stored() ==> #[trigger] self.offsets()[i] == records_len(
                self.lengths().take(i),
            )
        &&& self.write_offset() == records_len(self.lengths())
    }

    /// An empty store.
    pub fn new() -> (s: Self)
        ensures
            s.wf(),
            s.laid_out(),
            s.pages_stored() == 0,
            s.write_offset() == 0,
            s.numberings() == Seq::<N>::empty(),
            s.supplements() == Seq::<S>::empty(),
            s.tags_left() == Seq::<T>::empty(),
    {
        StoreIndex {
            write_offset: 0,
            page_count: 0,
            offsets: Vec::new(),
            numberings: Vec::new(),
            supplements: Vec::new(),
            remaining_tags: Vec::new(),
            lengths: Ghost(Seq::empty()),
        }
    }

    /// A store of records, one after another, with payloads of `lengths`
    /// bytes.
    pub fn from_lengths(lengths: &[u64]) -> (s: Self)
        requires
            records_len(lengths@.map_values(|l: u64| l as nat)) <= u64::MAX,
        ensures
            s.wf(),
            s.laid_out(),
            s.lengths() == lengths@.map_values(|l: u64| l as nat),
            s.pages_stored() == lengths@.len(),
            s.numberings() == Seq::<N>::empty(),
            s.supplements() == Seq::<S>::empty(),
            s.tags_left() == Seq::<T>::empty(),
    {
        let ghost all = lengths@.map_values(|l: u64| l as nat);
        let mut s = StoreIndex::new();
        let mut i: usize = 0;
        while i < lengths.len()
            invariant
                i <= lengths@.len(),
                all == lengths@.map_values(|l: u64| l as nat),
                records_len(all) <= u64::MAX,
                s.wf(),
                s.laid_out(),
                s.lengths() == all.take(i as int),
                s.pages_stored() == i,
                s.numberings() == Seq::<N>::empty(),
                s.supplements() == Seq::<S>::empty(),
                s.tags_left() == Seq::<T>::empty(),
            decreases lengths@.len() - i,
        {
            proof {
                assert(all.take(i as int + 1).drop_last() =~= all.take(i as int));
                lemma_records_len_prefix(all, i as int + 1);
            }
            s.reserve_offset();
            s.commit_page(lengths[i]);
            proof {
                assert(s.lengths() =~= all.take(i as int + 1));
            }
            i += 1;
        }
        proof {
            assert(all.take(i as int) =~= all);
        }
        s
    }

    /// Record where the next page's record starts, before it is written.
    pub fn reserve_offset(&mut self) -> (at: u64)
        requires
            old(self).wf(),
        ensures
            final(self).wf(),
            at == old(self).write_offset(),
            final(self).offsets() == old(self).offsets().push(at),
            final(self).write_offset() == old(self).write_offset(),
            final(self).pages_stored() == old(self).pages_stored(),
            final(self).lengths() == old(self).lengths(),
            final(self).numberings() == old(self).numberings(),
            final(self).supplements() == old(self).supplements(),
            final(self).tags_left() == old(self).tags_left(),
    {
        let at = self.write_offset;
        self.offsets.push(at);
        at
    }

    /// Count a page whose record, with a payload of `len` bytes, has been
    /// written.
    pub fn commit_page(&mut self, len: u64)
        requires
            old(self).wf(),
            old(self).pages_stored() < old(self).offsets().len(),
            old(self).write_offset() + PREFIX_LEN + len <= u64::MAX,
        ensures
            final(self).wf(),
            final(self).write_offset() == old(self).write_offset() + PREFIX_LEN + len,
            final(self).pages_stored() == old(self).pages_stored() + 1,
            final(self).offsets() == old(self).offsets(),
            final(self).lengths() == old(self).lengths().push(len as nat),
            final(self).numberings() == old(self).numberings(),
            final(self).supplements() == old(self).supplements(),
            final(self).tags_left() == old(self).tags_left(),
            old(self).offsets().len() == old(self).pages_stored() + 1 && old(self).lengths().len()
                == old(self).pages_stored() && old(self).offsets().last() == old(self).write_offset()
                && (forall|i: int|
                0 <= i < old(self).pages_stored() ==> #[trigger] old(self).offsets()[i]
                    == records_len(old(self).lengths().take(i))) && old(self).write_offset()
                == records_len(old(self).lengths()) ==> final(self).laid_out(),
    {
        let _slots = self.offsets.len();
        self.write_offset = self.write_offset + PREFIX_LEN + len;
        self.page_count = self.page_count + 1;
        self.lengths = Ghost(self.lengths@.push(len as nat));
        proof {
            let old_lengths = old(self).lengths();
            assert(self.lengths@.drop_last() =~= old_lengths);
            if old(self).offsets().len() == old(self).pages_stored() + 1 && old_lengths.len()
                == old(self).pages_stored() {
                assert forall|i: int| 0 <= i < old(self).pages_stored() implies self.lengths@.take(i)
                    == old_lengths.take(i) by {
                    assert(self.lengths@.take(i) =~= old_lengths.take(i));
                }
                assert(self.lengths@.take(old(self).pages_stored() as int) =~= old_lengths);
            }
        }
    }

    /// The pages stored.
    pub fn page_count(&self) -> (n: usize)
        ensures
            n == self.pages_stored(),
    {
        self.page_count
    }

    /// Where the record of page `index` starts, or why it cannot be read.
    pub fn locate(&self, index: usize) -> (r: Result<u64, StoreError>)
        requires
            self.wf(),
        ensures
            index >= self.pages_stored() <==> r == Err::<u64, StoreError>(StoreError::PageOutOfRange),
            index < self.pages_stored() ==> r == Ok::<u64, StoreError>(self.offsets()[index as int]),
    {
        if index >= self.page_count {
            return Err(StoreError::PageOutOfRange);
        }
        Ok(self.offsets[index])
    }

    /// Whether reading page `index` adds the remaining tags to it: only the
    /// last page gets them, and only if there are any.
    pub fn injects_remaining_tags(&self, index: usize) -> (b: bool)
        ensures
            b == (self.pages_stored() > 0 && index == self.pages_stored() - 1
                && self.tags_left().len() > 0),
    {
        self.page_count > 0 && index == self.page_count - 1 && self.remaining_tags.len() > 0
    }

    /// The tags that belong at the end of the last page.
    pub fn remaining_tags(&self) -> (tags: &[T])
        ensures
            tags@ == self.tags_left(),
    {
        self.remaining_tags.as_slice()
    }

    /// Take the remaining tags out, leaving none: a sequential reader hands
    /// them to the last page once.
    pub fn take_remaining_tags(&mut self) -> (tags: Vec<T>)
        ensures
            tags@ == old(self).tags_left(),
            final(self).tags_left() == Seq::<T>::empty(),
            final(self).write_offset() == old(self).write_offset(),
            final(self).pages_stored() == old(self).pages_stored(),
            final(self).offsets() == old(self).offsets(),
            final(self).lengths() == old(self).lengths(),
            final(self).numberings() == old(self).numberings(),
            final(self).supplements() == old(self).supplements(),
            final(self).wf() == old(self).wf(),
    {
        let mut tags = Vec::new();
        std::mem::swap(&mut tags, &mut self.remaining_tags);
        tags
    }

    /// Set the tags that belong at the end of the last page.
    pub fn set_remaining_tags(&mut self, tags: Vec<T>)
        ensures
            final(self).tags_left() == tags@,
            final(self).write_offset() == old(self).write_offset(),
            final(self).pages_stored() == old(self).pages_stored(),
            final(self).offsets() == old(self).offsets(),
            final(self).lengths() == old(self).lengths(),
            final(self).numberings() == old(self).numberings(),
            final(self).supplements() == old(self).supplements(),
            final(self).wf() == old(self).wf(),
    {
        self.remaining_tags = tags;
    }

    /// Drop the remaining tags.
    pub fn clear_tag_content(&mut self)
        ensures
            final(self).tags_left() == Seq::<T>::empty(),
            final(self).write_offset() == old(self).write_offset(),
            final(self).pages_stored() == old(self).pages_stored(),
            final(self).offsets() == old(self).offsets(),
            final(self).lengths() == old(self).lengths(),
            final(self).numberings() == old(self).numberings(),
            final(self).supplements() == old(self).supplements(),
            final(self).wf() == old(self).wf(),
    {
        self.remaining_tags.clear();
    }

    /// Keep a page's numbering, if any, and its supplement, and return the
    /// numbers under which they are kept: each the count of its table
    /// before, as a `u32`.
    pub fn keep_page_refs(&mut self, numbering: Option<N>, supplement: S) -> (refs: (
        Option<u32>,
        u32,
    ))
        ensures
            refs.0 is Some <==> numbering is Some,
            refs.0 is Some ==> refs.0->0 == old(self).numberings().len() as u32,
            numbering is Some ==> final(self).numberings() == old(self).numberings().push(
                numbering->0,
            ),
            numbering is None ==> final(self).numberings() == old(self).numberings(),
            refs.1 == old(self).supplements().len() as u32,
            final(self).supplements() == old(self).supplements().push(supplement),
            final(self).write_offset() == old(self).write_offset(),
            final(self).pages_stored() == old(self).pages_stored(),
            final(self).offsets() == old(self).offsets(),
            final(self).lengths() == old(self).lengths(),
            final(self).tags_left() == old(self).tags_left(),
            final(self).wf() == old(self).wf(),
    {
        let numbering_ref = match numbering {
            Some(n) => {
                let id = self.numberings.len() as u32;
                self.numberings.push(n);
                Some(id)
            },
            None => None,
        };
        let supplement_ref = self.supplements.len() as u32;
        self.supplements.push(supplement);
        (numbering_ref, supplement_ref)
    }

    /// The numbering kept under `id`.
    pub fn numbering(&self, id: u32) -> (n: &N)
        requires
            id < self.numberings().len(),
        ensures
            *n == self.numberings()[id as int],
    {
        &self.numberings[id as usize]
    }

    /// The supplement kept under `id`.
    pub fn supplement(&self, id: u32) -> (s: &S)
        requires
            id < self.supplements().len(),
        ensures
            *s == self.supplements()[id as int],
    {
        &self.supplements[id as usize]
    }
}

proof fn lemma_records_len_prefix(lengths: Seq<nat>, k: int)
    requires
        0 <= k <= lengths.len(),
    ensures
        records_len(lengths.take(k)) <= records_len(lengths),
    decreases lengths.len(),
{
    if k < lengths.len() {
        lemma_records_len_prefix(lengths.drop_last(), k);
        assert(lengths.drop_last().take(k) =~= lengths.take(k));
    } else {
        assert(lengths.take(k) =~= lengths);
    }
}

/// Reading a page gives back what was written for it: when the file holds
/// the records of the pages' payloads one after another, the record found
/// at the offset that the store keeps for page `i` has that page's length
/// in its prefix and that page's payload after it.
pub proof fn lemma_read_finds_written_page<N, S, T>(
    index: StoreIndex<N, S, T>,
    payloads: Seq<Seq<u8>>,
    i: int,
)
    requires
        index.laid_out(),
        payload_lengths(payloads) == index.lengths(),
        forall|k: int| 0 <= k < payloads.len() ==> #[trigger] payloads[k].len() <= u64::MAX,
        0 <= i < index.pages_stored(),
    ensures
        ({
            let file = records(payloads);
            let at = index.offsets()[i] as int;
            let len = payloads[i].len();
            &&& at + PREFIX_LEN + len <= file.len()
            &&& spec_u64_from_le_bytes(file.subrange(at, at + PREFIX_LEN)) == len
            &&& file.subrange(at + PREFIX_LEN, at + PREFIX_LEN + len) == payloads[i]
        }),
{
    assert(payloads.len() == payload_lengths(payloads).len());
    lemma_record_at_offset(payloads, i);
}

} // verus!
