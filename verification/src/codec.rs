use vstd::prelude::*;
use vstd::bytes::*;
use vstd::slice::{slice_subrange, slice_to_vec};

verus! {

/// Metadata for one block: its id, its parent's id, and its chain length
/// (distance from the genesis block, which has chain length zero).
pub struct BlockInfo {
    pub id: Vec<u8>,
    pub parent_id: Vec<u8>,
    pub chain_length: u32,
}

/// Mathematical model of a block metadata record.
#[verifier::ext_equal]
pub ghost struct BlockInfoModel {
    pub id: Seq<u8>,
    pub parent_id: Seq<u8>,
    pub chain_length: u32,
}

impl View for BlockInfo {
    type V = BlockInfoModel;

    open spec fn view(&self) -> BlockInfoModel {
        BlockInfoModel {
            id: self.id@,
            parent_id: self.parent_id@,
            chain_length: self.chain_length,
        }
    }
}

/// Serialized layout of a record: four little-endian bytes of chain length,
/// then the parent id. The record's own id is the lookup key under which the
/// value is stored and is not re-encoded in the value.
pub open spec fn spec_serialize(m: BlockInfoModel) -> Seq<u8> {
    spec_u32_to_le_bytes(m.chain_length) + m.parent_id
}

/// What decoding a serialized value recovers, given the value bytes and the
/// id under which the value was stored.
pub open spec fn spec_deserialize(bytes: Seq<u8>, id: Seq<u8>) -> BlockInfoModel {
    BlockInfoModel {
        id: id,
        parent_id: bytes.skip(4),
        chain_length: spec_u32_from_le_bytes(bytes.subrange(0, 4)),
    }
}

impl BlockInfo {
    /// Encode the record for storage under its id.
    pub fn serialize(&self) -> (r: Vec<u8>)
        ensures
            r@ == spec_serialize(self@),
            r@.len() == self.parent_id@.len() + 4,
    {
        let mut out = u32_to_le_bytes(self.chain_length);
        let mut rest = slice_to_vec(self.parent_id.as_slice());
        out.append(&mut rest);
        out
    }

    /// Decode a stored value. The id width is a deployment parameter threaded
    /// in by the caller, and the record's own id is the key it was stored
    /// under; neither is recovered from the value bytes themselves.
    pub fn deserialize(bytes: &[u8], id_size: usize, id: Vec<u8>) -> (r: BlockInfo)
        requires
            bytes@.len() == id_size + 4,
            id@.len() == id_size,
        ensures
            r@ == spec_deserialize(bytes@, id@),
    {
        let chain_length = u32_from_le_bytes(slice_subrange(bytes, 0, 4));
        let parent_id = slice_to_vec(slice_subrange(bytes, 4, bytes.len()));
        let r = BlockInfo { id, parent_id, chain_length };
        proof {
            assert(r@ =~= spec_deserialize(bytes@, id@));
        }
        r
    }
}

/// Law: decoding a serialized record under the record's own id recovers the
/// record exactly, for every record.
pub proof fn lemma_serialize_round_trip(m: BlockInfoModel)
    ensures
        spec_deserialize(spec_serialize(m), m.id) == m,
{
    lemma_auto_spec_u32_to_from_le_bytes();
    assert(spec_serialize(m).subrange(0, 4) =~= spec_u32_to_le_bytes(m.chain_length));
    assert(spec_serialize(m).skip(4) =~= m.parent_id);
    assert(spec_deserialize(spec_serialize(m), m.id) =~= m);
}

} // verus!
