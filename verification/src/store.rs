use vstd::prelude::*;
use vstd::slice::slice_to_vec;
use crate::codec::{BlockInfo, spec_deserialize};

verus! {

// ---------------------------------------------------------------------------
// Declarations of the outside storage types the two tiers are built on.
// ---------------------------------------------------------------------------

#[verifier::external_type_specification]
#[verifier::external_body]
pub struct ExTree(sled::Tree);

#[verifier::external_type_specification]
#[verifier::external_body]
pub struct ExSledError(sled::Error);

#[verifier::external_type_specification]
#[verifier::external_body]
pub struct ExDatabase(data_pile::Database);

#[verifier::external_type_specification]
#[verifier::external_body]
pub struct ExSeqNoIter(data_pile::SeqNoIter);

/// What a keyed tree holds: a map from byte keys to byte values. A tree
/// handle is taken to denote fixed contents: this store is read-mostly and
/// single-threaded from the reader's side, and a writer racing a reader is
/// outside the model (a read may then end a walk early, never yield a wrong
/// record for its key).
pub uninterp spec fn tree_entries(t: sled::Tree) -> Map<Seq<u8>, Seq<u8>>;

/// What an append-only pile holds: its records, in append order, so that the
/// record appended n-th sits at sequence number n.
pub uninterp spec fn pile_records(db: data_pile::Database) -> Seq<Seq<u8>>;

/// What a pile cursor still has in front of it, in order. The pile is
/// append-only and a published record is never rewritten; records appended
/// after the cursor was opened are outside the model.
pub uninterp spec fn iter_rest(it: data_pile::SeqNoIter) -> Seq<Seq<u8>>;

/// Relies on sled::Tree::get: a tree is a persistent map from byte keys to
/// byte values; get returns the value stored under the key, None when the key
/// is absent, and an error only when the underlying storage fails.
#[verifier::external_body]
pub(crate) fn tree_get(t: &sled::Tree, key: &[u8]) -> (r: Result<Option<Vec<u8>>, sled::Error>)
    ensures
        r matches Ok(Some(v)) ==> tree_entries(*t).contains_key(key@) && v@ == tree_entries(
            *t,
        )[key@],
        r matches Ok(None) ==> !tree_entries(*t).contains_key(key@),
{
    match t.get(key) {
        Ok(Some(v)) => Ok(Some(v.as_ref().to_vec())),
        Ok(None) => Ok(None),
        Err(e) => Err(e),
    }
}

/// Relies on data_pile::Database::get_by_seqno: records keep append order,
/// and the lookup returns the record at the given sequence number exactly
/// when one has been appended there.
#[verifier::external_body]
pub(crate) fn pile_get_by_seqno(db: &data_pile::Database, seqno: usize) -> (r: Option<Vec<u8>>)
    ensures
        r is Some <==> (seqno as int) < pile_records(*db).len(),
        r matches Some(v) ==> v@ == pile_records(*db)[seqno as int],
{
    db.get_by_seqno(seqno).map(|m| m.as_ref().to_vec())
}

/// Relies on data_pile::Database::iter_from_seqno: it returns a cursor
/// unconditionally (the source never returns None), and the cursor walks the
/// records from the given sequence number on, in order.
#[verifier::external_body]
pub(crate) fn pile_iter_from(db: &data_pile::Database, seqno: usize) -> (r: data_pile::SeqNoIter)
    ensures
        (seqno as int) <= pile_records(*db).len() ==> iter_rest(r) == pile_records(*db).skip(
            seqno as int,
        ),
        (seqno as int) > pile_records(*db).len() ==> iter_rest(r) == Seq::<Seq<u8>>::empty(),
{
    db.iter_from_seqno(seqno).unwrap()
}

/// Relies on data_pile::SeqNoIter::next: it yields the next remaining record
/// and advances past it, and returns None exactly when none remain.
#[verifier::external_body]
pub(crate) fn pile_iter_next(it: &mut data_pile::SeqNoIter) -> (r: Option<Vec<u8>>)
    ensures
        r matches Some(v) ==> iter_rest(*old(it)).len() > 0 && v@ == iter_rest(*old(it))[0]
            && iter_rest(*final(it)) == iter_rest(*old(it)).skip(1),
        r is None ==> iter_rest(*old(it)).len() == 0 && iter_rest(*final(it)) == iter_rest(
            *old(it),
        ),
{
    it.next().map(|m| m.as_ref().to_vec())
}

/// Copy a byte string.
pub(crate) fn copy_bytes(v: &Vec<u8>) -> (r: Vec<u8>)
    ensures
        r@ == v@,
{
    slice_to_vec(v.as_slice())
}

// ---------------------------------------------------------------------------
// Errors of the tiered store.
// ---------------------------------------------------------------------------

/// Failures of the tiered store.
#[derive(Debug, Clone, Copy, PartialEq, Eq, Structural)]
pub enum StoreError {
    /// The target block is in neither tier.
    BlockNotFound,
    /// The requested depth exceeds the target's chain length plus one, or is
    /// zero; the fields carry the request and the available chain length.
    ContractViolation { distance: u32, chain_length: u32 },
    /// The underlying storage failed.
    StorageError,
    /// A stored value has the wrong width, or a parent link does not resolve
    /// to the record one shorter than its child.
    Corruption,
}

// ---------------------------------------------------------------------------
// The shared metadata index.
// ---------------------------------------------------------------------------

/// Point lookup of the shared metadata index: the record cached under a block
/// id while its block sits in the working set. Absence only means the record
/// is not resident in this cache; the block may still be archival-only.
pub fn index_get(block_info: &sled::Tree, id: &[u8]) -> (r: Result<
    Option<BlockInfo>,
    StoreError,
>)
    ensures
        r matches Ok(Some(info)) ==> tree_entries(*block_info).contains_key(id@)
            && tree_entries(*block_info)[id@].len() == id@.len() + 4
            && info@ == spec_deserialize(tree_entries(*block_info)[id@], id@),
        r matches Ok(None) ==> !tree_entries(*block_info).contains_key(id@),
        r matches Err(e) ==> (e == StoreError::StorageError || (e == StoreError::Corruption
            && tree_entries(*block_info).contains_key(id@) && tree_entries(*block_info)[
        id@].len() != id@.len() + 4)),
{
    match tree_get(block_info, id) {
        Err(_) => Err(StoreError::StorageError),
        Ok(None) => Ok(None),
        Ok(Some(bin)) => {
            if bin.len() >= 4 && bin.len() - 4 == id.len() {
                Ok(Some(BlockInfo::deserialize(bin.as_slice(), id.len(), slice_to_vec(id))))
            } else {
                Err(StoreError::Corruption)
            }
        },
    }
}

// ---------------------------------------------------------------------------
// The working-set tier.
// ---------------------------------------------------------------------------

/// Point lookup of the working-set tier: a block's content by id. None means
/// the block is absent, never telling "not yet written" from "already
/// migrated out".
pub fn working_set_get(blocks: &sled::Tree, id: &[u8]) -> (r: Result<
    Option<Vec<u8>>,
    StoreError,
>)
    ensures
        r matches Ok(Some(v)) ==> tree_entries(*blocks).contains_key(id@) && v@ == tree_entries(
            *blocks,
        )[id@],
        r matches Ok(None) ==> !tree_entries(*blocks).contains_key(id@),
        r matches Err(e) ==> e == StoreError::StorageError,
{
    match tree_get(blocks, id) {
        Err(_) => Err(StoreError::StorageError),
        Ok(v) => Ok(v),
    }
}

// ---------------------------------------------------------------------------
// The archival tier.
// ---------------------------------------------------------------------------

/// The archival tier: finalized block contents in an append-only pile whose
/// sequence numbers are chain lengths, beside a keyed tree of their metadata
/// records.
pub struct PermanentStore {
    blocks: data_pile::Database,
    infos: sled::Tree,
    id_size: usize,
}

impl PermanentStore {
    /// Contents of the archival tier: block contents indexed by chain length.
    pub closed spec fn records(self) -> Seq<Seq<u8>> {
        pile_records(self.blocks)
    }

    /// The archival metadata entries: serialized records keyed by block id.
    pub closed spec fn info_map(self) -> Map<Seq<u8>, Seq<u8>> {
        tree_entries(self.infos)
    }

    /// The fixed id width this store was opened with.
    pub closed spec fn spec_id_size(self) -> nat {
        self.id_size as nat
    }

    /// Wrap an opened pile and metadata tree as an archival tier with the
    /// given id width.
    pub fn new(blocks: data_pile::Database, infos: sled::Tree, id_size: usize) -> (s:
        PermanentStore)
        ensures
            s.records() == pile_records(blocks),
            s.info_map() == tree_entries(infos),
            s.spec_id_size() == id_size,
    {
        PermanentStore { blocks, infos, id_size }
    }

    pub fn id_size(&self) -> (r: usize)
        ensures
            r == self.spec_id_size(),
    {
        self.id_size
    }

    /// Metadata lookup by block id, for targets no longer in the shared
    /// index.
    pub fn get_block_info(&self, id: &[u8]) -> (r: Result<Option<BlockInfo>, StoreError>)
        requires
            id@.len() == self.spec_id_size(),
        ensures
            r matches Ok(Some(info)) ==> self.info_map().contains_key(id@)
                && self.info_map()[id@].len() == id@.len() + 4
                && info@ == spec_deserialize(self.info_map()[id@], id@),
            r matches Ok(None) ==> !self.info_map().contains_key(id@),
            r matches Err(e) ==> (e == StoreError::StorageError || (e == StoreError::Corruption
                && self.info_map().contains_key(id@) && self.info_map()[id@].len() != id@.len()
                + 4)),
    {
        match tree_get(&self.infos, id) {
            Err(_) => Err(StoreError::StorageError),
            Ok(None) => Ok(None),
            Ok(Some(bin)) => {
                if bin.len() >= 4 && bin.len() - 4 == id.len() {
                    Ok(Some(BlockInfo::deserialize(bin.as_slice(), id.len(), slice_to_vec(id))))
                } else {
                    Err(StoreError::Corruption)
                }
            },
        }
    }

    /// Membership test and content lookup of the archival tier by chain
    /// length.
    pub fn get_block_by_chain_length(&self, chain_length: u32) -> (r: Option<Vec<u8>>)
        ensures
            r is Some <==> (chain_length as int) < self.records().len(),
            r matches Some(v) ==> v@ == self.records()[chain_length as int],
    {
        pile_get_by_seqno(&self.blocks, chain_length as usize)
    }

    /// A forward, ascending scan of archival block contents from the given
    /// chain length; it ends where the archival range ends.
    pub fn iter(&self, from: u32) -> (r: data_pile::SeqNoIter)
        ensures
            (from as int) <= self.records().len() ==> iter_rest(r) == self.records().skip(
                from as int,
            ),
            (from as int) > self.records().len() ==> iter_rest(r) == Seq::<Seq<u8>>::empty(),
    {
        pile_iter_from(&self.blocks, from as usize)
    }
}

} // verus!
