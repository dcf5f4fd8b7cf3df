use vstd::prelude::*;
use crate::codec::{BlockInfo, spec_deserialize};
use crate::store::{
    copy_bytes, iter_rest, pile_iter_next, tree_entries, tree_get, PermanentStore, StoreError,
};

verus! {

/// Tier a yielded block was read from.
#[derive(Debug, Clone, Copy, PartialEq, Eq, Structural)]
pub enum Origin {
    Permanent,
    Volatile,
}

/// A block's content tagged with the tier it was read from at the moment of
/// the read; the chain length it was yielded at rides along as ghost data.
pub struct Value {
    pub origin: Origin,
    pub data: Vec<u8>,
    pub chain_length: Ghost<u32>,
}

/// The run of chain lengths from `from` up to `to`, both inclusive.
pub open spec fn length_range(from: u32, to: u32) -> Seq<u32> {
    if from <= to {
        Seq::new((to - from + 1) as nat, |i: int| (from + i) as u32)
    } else {
        Seq::empty()
    }
}

enum IteratorState {
    Permanent {
        iter: data_pile::SeqNoIter,
        current_length: u32,
        stop_at_length: u32,
        finished: bool,
    },
    Volatile {
        ids: Vec<Vec<u8>>,
        lengths: Ghost<Seq<u32>>,
    },
}

/// Iterator over a run of ancestor blocks ending at a target block. It starts
/// in the archival tier when the first wanted chain length is archived, and
/// crosses into the working set at most once, when the archival range ends.
pub struct StorageIterator {
    state: IteratorState,
    to: Vec<u8>,
    block_info: sled::Tree,
    blocks: sled::Tree,
}

impl StorageIterator {
    /// The chain lengths still owed, in the order they will be yielded.
    pub closed spec fn pending(self) -> Seq<u32> {
        match self.state {
            IteratorState::Permanent { current_length, stop_at_length, finished, .. } => if finished {
                Seq::empty()
            } else {
                length_range(current_length, stop_at_length)
            },
            IteratorState::Volatile { lengths, .. } => lengths@,
        }
    }

    /// Whether iteration has crossed from the archival tier into the working
    /// set.
    pub closed spec fn crossed(self) -> bool {
        self.state is Volatile
    }

    /// The archival contents still in front of the cursor, while in the
    /// archival tier.
    pub closed spec fn archival_rest(self) -> Seq<Seq<u8>> {
        match self.state {
            IteratorState::Permanent { iter, .. } => iter_rest(iter),
            IteratorState::Volatile { .. } => Seq::empty(),
        }
    }

    /// The ids still owed while in the working set, in yield order.
    pub closed spec fn pending_ids(self) -> Seq<Seq<u8>> {
        match self.state {
            IteratorState::Volatile { ids, .. } => ids.deep_view().reverse(),
            IteratorState::Permanent { .. } => Seq::empty(),
        }
    }

    /// The id of the target block.
    pub closed spec fn target(self) -> Seq<u8> {
        self.to@
    }

    /// The shared metadata index this iterator reads.
    pub closed spec fn index_map(self) -> Map<Seq<u8>, Seq<u8>> {
        tree_entries(self.block_info)
    }

    /// The working-set contents this iterator reads.
    pub closed spec fn content_map(self) -> Map<Seq<u8>, Seq<u8>> {
        tree_entries(self.blocks)
    }

    /// Internal consistency: the owed lengths are consecutive and ascending,
    /// and in the archival tier the target's index entry, if any, agrees with
    /// the stop length.
    pub closed spec fn wf(self) -> bool {
        match self.state {
            IteratorState::Permanent { current_length, stop_at_length, finished, .. } => {
                &&& (!finished ==> current_length <= stop_at_length)
                &&& (self.index_map().contains_key(self.to@) ==> {
                    &&& self.index_map()[self.to@].len() == self.to@.len() + 4
                    &&& spec_deserialize(self.index_map()[self.to@], self.to@).chain_length
                        == stop_at_length
                })
            },
            IteratorState::Volatile { ids, lengths } => {
                &&& ids@.len() == lengths@.len()
                &&& (forall|i: int|
                    0 <= i < lengths@.len() ==> #[trigger] lengths@[i] as int == lengths@[0]
                        as int + i)
            },
        }
    }

    /// Open an iterator that yields `distance` ancestors of the target block
    /// `to`, the target included, oldest first. The target's metadata is
    /// resolved through the shared index, with the archival tier as the
    /// fallback; a target in neither fails with BlockNotFound, and a distance
    /// of zero or beyond the target's chain length plus one fails with
    /// ContractViolation. Whether an ancestor/descendant path exists is the
    /// caller's to establish beforehand. The run always ends at the target
    /// itself: a depth-one request on an archived target yields that one
    /// block, since the archival scan runs through its stop length inclusive.
    pub fn new(
        to: Vec<u8>,
        distance: u32,
        permanent_store: &PermanentStore,
        block_info: sled::Tree,
        blocks: sled::Tree,
    ) -> (r: Result<StorageIterator, StoreError>)
        requires
            permanent_store.spec_id_size() == to@.len(),
        ensures
            ({
                let bi = tree_entries(block_info);
                let pm = permanent_store.info_map();
                let in_index = bi.contains_key(to@);
                let tl = if in_index {
                    spec_deserialize(bi[to@], to@).chain_length
                } else {
                    spec_deserialize(pm[to@], to@).chain_length
                };
                match r {
                    Ok(it) => {
                        &&& it.wf()
                        &&& it.target() == to@
                        &&& it.index_map() == bi
                        &&& it.content_map() == tree_entries(blocks)
                        &&& (in_index || pm.contains_key(to@))
                        &&& 1 <= distance <= tl + 1
                        &&& ({
                            let from = (tl + 1 - distance) as u32;
                            &&& ((from as int) < permanent_store.records().len() ==> {
                                &&& !it.crossed()
                                &&& it.pending() =~= length_range(from, tl)
                                &&& it.archival_rest() == permanent_store.records().skip(
                                    from as int,
                                )
                            })
                            &&& ((from as int) >= permanent_store.records().len() ==> {
                                &&& it.crossed()
                                &&& (in_index ==> it.pending() =~= length_range(from, tl)
                                    && it.pending_ids().len() == it.pending().len() && (
                                forall|j: int|
                                    0 <= j < it.pending_ids().len()
                                        ==> #[trigger] it.pending_ids()[j] == walk_back(
                                        bi,
                                        to@,
                                        (it.pending().len() - 1 - j) as nat,
                                    )))
                                &&& (!in_index ==> it.pending() =~= Seq::<u32>::empty())
                            })
                        })
                    },
                    Err(e) => {
                        &&& (e == StoreError::BlockNotFound ==> !in_index && !pm.contains_key(
                            to@,
                        ))
                        &&& (e matches StoreError::ContractViolation {
                            distance: d,
                            chain_length: cl,
                        } ==> d == distance && (distance == 0 || distance > cl + 1) && (in_index
                            || pm.contains_key(to@)) && cl == tl)
                    },
                }
            }),
            (!tree_entries(block_info).contains_key(to@)
                && !permanent_store.info_map().contains_key(to@)) ==> (r == Err::<
                StorageIterator,
                StoreError,
            >(StoreError::BlockNotFound) || r == Err::<StorageIterator, StoreError>(
                StoreError::StorageError,
            )),
            ({
                let bi = tree_entries(block_info);
                let tl = spec_deserialize(bi[to@], to@).chain_length;
                (bi.contains_key(to@) && bi[to@].len() == to@.len() + 4 && (distance == 0
                    || distance > tl + 1)) ==> (r == Err::<StorageIterator, StoreError>(
                    StoreError::ContractViolation { distance, chain_length: tl },
                ) || r == Err::<StorageIterator, StoreError>(StoreError::StorageError))
            }),
            ({
                let bi = tree_entries(block_info);
                let tl = spec_deserialize(bi[to@], to@).chain_length;
                (bi.contains_key(to@) && bi[to@].len() == to@.len() + 4 && 1 <= distance
                    && distance <= tl + 1 && (((tl + 1 - distance) as int)
                    < permanent_store.records().len() || walk_ok(
                    bi,
                    to@,
                    to@.len() as int,
                    (tl + 1 - distance) as u32,
                ))) ==> (r is Ok || r == Err::<StorageIterator, StoreError>(
                    StoreError::StorageError,
                ))
            }),
            ({
                let pm = permanent_store.info_map();
                let tl = spec_deserialize(pm[to@], to@).chain_length;
                (!tree_entries(block_info).contains_key(to@) && pm.contains_key(to@)
                    && pm[to@].len() == to@.len() + 4 && (distance == 0 || distance > tl + 1))
                    ==> (r == Err::<StorageIterator, StoreError>(
                    StoreError::ContractViolation { distance, chain_length: tl },
                ) || r == Err::<StorageIterator, StoreError>(StoreError::StorageError))
            }),
            ({
                let pm = permanent_store.info_map();
                let tl = spec_deserialize(pm[to@], to@).chain_length;
                (!tree_entries(block_info).contains_key(to@) && pm.contains_key(to@)
                    && pm[to@].len() == to@.len() + 4 && 1 <= distance && distance <= tl + 1)
                    ==> (r is Ok || r == Err::<StorageIterator, StoreError>(
                    StoreError::StorageError,
                ))
            }),
            ({
                let bi = tree_entries(block_info);
                let pm = permanent_store.info_map();
                let tl = spec_deserialize(bi[to@], to@).chain_length;
                r == Err::<StorageIterator, StoreError>(StoreError::Corruption) ==> ((
                bi.contains_key(to@) && bi[to@].len() != to@.len() + 4) || (!bi.contains_key(
                    to@,
                ) && pm.contains_key(to@) && pm[to@].len() != to@.len() + 4) || (
                bi.contains_key(to@) && bi[to@].len() == to@.len() + 4 && 1 <= distance
                    && distance <= tl + 1 && !walk_ok(
                    bi,
                    to@,
                    to@.len() as int,
                    (tl + 1 - distance) as u32,
                )))
            }),
    {
        let id_size = to.len();
        let got = match tree_get(&block_info, to.as_slice()) {
            Err(_) => { return Err(StoreError::StorageError); },
            Ok(v) => v,
        };
        let ghost in_index = got is Some;
        let to_info: BlockInfo;
        match got {
            Some(bin) => {
                if !(bin.len() >= 4 && bin.len() - 4 == id_size) {
                    return Err(StoreError::Corruption);
                }
                to_info = BlockInfo::deserialize(bin.as_slice(), id_size, copy_bytes(&to));
            },
            None => {
                match permanent_store.get_block_info(to.as_slice()) {
                    Err(e) => { return Err(e); },
                    Ok(None) => { return Err(StoreError::BlockNotFound); },
                    Ok(Some(info)) => { to_info = info; },
                }
            },
        }
        if distance == 0 || distance - 1 > to_info.chain_length {
            return Err(
                StoreError::ContractViolation { distance, chain_length: to_info.chain_length },
            );
        }
        let from_length: u32 = to_info.chain_length - (distance - 1);
        let state = if permanent_store.get_block_by_chain_length(from_length).is_some() {
            IteratorState::Permanent {
                iter: permanent_store.iter(from_length),
                current_length: from_length,
                stop_at_length: to_info.chain_length,
                finished: false,
            }
        } else {
            let pair = match gather_blocks_ids(&to, &block_info, from_length) {
                Err(e) => { return Err(e); },
                Ok(p) => p,
            };
            proof {
                let bi = tree_entries(block_info);
                let dids = pair.0.deep_view();
                assert forall|j: int| 0 <= j < dids.len() implies #[trigger] dids[j]
                    == walk_back(bi, to@, j as nat) by {
                    lemma_ids_follow_walk(bi, dids, j);
                }
            }
            IteratorState::Volatile { ids: pair.0, lengths: pair.1 }
        };
        Ok(StorageIterator { state, to, block_info, blocks })
    }

    /// Yield the next ancestor, oldest first: the content of the block at the
    /// first owed chain length, tagged with the tier it was read from. While
    /// the archival cursor produces items they are yielded as permanent; when
    /// the archival range ends before the stop length, iteration crosses into
    /// the working set, materializes the remaining ids by walking parent
    /// links through the index, and yields their contents as volatile. A
    /// storage failure, a missing working-set entry or an unresolvable parent
    /// link ends the iteration silently at that point: next then returns None
    /// and the iterator owes nothing more.
    pub fn next(&mut self) -> (r: Option<Value>)
        requires
            old(self).wf(),
        ensures
            final(self).wf(),
            final(self).target() == old(self).target(),
            final(self).index_map() == old(self).index_map(),
            final(self).content_map() == old(self).content_map(),
            old(self).crossed() ==> final(self).crossed(),
            // while the archival cursor still has items in front of it, a
            // yield is owed: no failure is possible on this path
            (!old(self).crossed() && old(self).pending().len() > 0 && old(
                self,
            ).archival_rest().len() > 0) ==> r is Some,
            // and no crossing happens while the cursor still has items
            (!old(self).crossed() && old(self).archival_rest().len() > 0 && r is Some)
                ==> !final(self).crossed(),
            match r {
                Some(v) => {
                    &&& old(self).pending().len() > 0
                    &&& v.chain_length@ == old(self).pending()[0]
                    &&& final(self).pending() =~= old(self).pending().skip(1)
                    &&& (v.origin == Origin::Permanent <==> !final(self).crossed())
                    &&& (!final(self).crossed() ==> old(self).archival_rest().len() > 0
                        && v.data@ == old(self).archival_rest()[0] && final(self).archival_rest()
                        =~= old(self).archival_rest().skip(1))
                    &&& (old(self).crossed() ==> old(self).pending_ids().len() > 0
                        && old(self).content_map().contains_key(old(self).pending_ids()[0])
                        && v.data@ == old(self).content_map()[old(self).pending_ids()[0]]
                        && final(self).pending_ids() =~= old(self).pending_ids().skip(1))
                    &&& ((!old(self).crossed() && final(self).crossed()) ==> ({
                        // the crossing yield: its bytes are the working-set
                        // content of the ancestor that the parent walk from
                        // the target reaches at the first owed chain length
                        let key = walk_back(
                            old(self).index_map(),
                            old(self).target(),
                            (old(self).pending().last() - old(self).pending()[0]) as nat,
                        );
                        &&& old(self).content_map().contains_key(key)
                        &&& v.data@ == old(self).content_map()[key]
                    }))
                },
                None => final(self).pending().len() == 0,
            },
    {
        let mut handoff = false;
        let mut handoff_length: u32 = 0;
        match &mut self.state {
            IteratorState::Permanent { iter, current_length, stop_at_length, finished } => {
                if *finished {
                    return None;
                }
                match pile_iter_next(iter) {
                    Some(item) => {
                        let ghost c = *current_length;
                        let v = Value {
                            origin: Origin::Permanent,
                            data: item,
                            chain_length: Ghost(c),
                        };
                        if *current_length == *stop_at_length {
                            *finished = true;
                        } else {
                            *current_length = *current_length + 1;
                        }
                        proof {
                            lemma_range_step(c, *stop_at_length);
                        }
                        return Some(v);
                    },
                    None => {
                        handoff = true;
                        handoff_length = *current_length;
                    },
                }
            },
            IteratorState::Volatile { .. } => {},
        }
        if handoff {
            // the archival range ended before the stop length: hand the rest
            // of the run to the working set
            match gather_blocks_ids(&self.to, &self.block_info, handoff_length) {
                Ok(pair) => {
                    self.state = IteratorState::Volatile { ids: pair.0, lengths: pair.1 };
                },
                Err(_) => {
                    self.state = IteratorState::Volatile {
                        ids: Vec::new(),
                        lengths: Ghost(Seq::empty()),
                    };
                    return None;
                },
            }
        }
        match &mut self.state {
            IteratorState::Volatile { ids, lengths } => {
                let ghost dids_at_pop = ids.deep_view();
                let popped = ids.pop();
                match popped {
                    None => None,
                    Some(id) => {
                        let ghost l = lengths@[0];
                        proof {
                            lemma_consecutive_skip(lengths@);
                            assert(id.deep_view() =~= id@);
                            assert(dids_at_pop[dids_at_pop.len() - 1] == id@);
                            if old(self).crossed() {
                                assert(old(self).pending_ids()[0] == id@);
                            } else {
                                lemma_ids_follow_walk(
                                    tree_entries(self.block_info),
                                    dids_at_pop,
                                    dids_at_pop.len() - 1,
                                );
                            }
                        }
                        let ghost rest = lengths@.skip(1);
                        *lengths = Ghost(rest);
                        match tree_get(&self.blocks, id.as_slice()) {
                            Ok(Some(content)) => Some(
                                Value {
                                    origin: Origin::Volatile,
                                    data: content,
                                    chain_length: Ghost(l),
                                },
                            ),
                            _ => {
                                // missing entry or failing read: end silently
                                *ids = Vec::new();
                                *lengths = Ghost(Seq::empty());
                                None
                            },
                        }
                    },
                }
            },
            IteratorState::Permanent { .. } => {
                proof {
                    assert(false);
                }
                None
            },
        }
    }
}

/// A consecutive ascending run stays consecutive and ascending when its first
/// entry is dropped.
proof fn lemma_consecutive_skip(lengths: Seq<u32>)
    requires
        forall|i: int|
            0 <= i < lengths.len() ==> #[trigger] lengths[i] as int == lengths[0] as int + i,
        lengths.len() > 0,
    ensures
        forall|i: int|
            0 <= i < lengths.skip(1).len() ==> #[trigger] lengths.skip(1)[i] as int == lengths.skip(
                1,
            )[0] as int + i,
{
    assert forall|i: int| 0 <= i < lengths.skip(1).len() implies #[trigger] lengths.skip(
        1,
    )[i] as int == lengths.skip(1)[0] as int + i by {
        assert(lengths.skip(1)[i] == lengths[i + 1]);
        assert(lengths.skip(1)[0] == lengths[1]);
    }
}

/// Consuming the first length of an inclusive run leaves the run that starts
/// one higher, or nothing when the run had one entry.
proof fn lemma_range_step(c: u32, s: u32)
    requires
        c <= s,
    ensures
        c < s ==> length_range((c + 1) as u32, s) =~= length_range(c, s).skip(1),
        c == s ==> Seq::<u32>::empty() =~= length_range(c, s).skip(1),
        length_range(c, s).len() > 0,
        length_range(c, s)[0] == c,
{
}

/// Whether the backward walk from the record stored under `id` down to
/// `stop` can complete cleanly in the index `bi` with ids of width `w`: the
/// record is present and well-sized, and as long as its chain length is above
/// `stop`, so is its parent's record, exactly one chain length below it.
pub open spec fn walk_ok(bi: Map<Seq<u8>, Seq<u8>>, id: Seq<u8>, w: int, stop: u32) -> bool
    decreases spec_deserialize(bi[id], id).chain_length,
{
    if !bi.contains_key(id) || bi[id].len() != w + 4 {
        false
    } else {
        let rec = spec_deserialize(bi[id], id);
        if rec.chain_length <= stop {
            true
        } else {
            if bi.contains_key(rec.parent_id) && bi[rec.parent_id].len() == w + 4
                && spec_deserialize(bi[rec.parent_id], rec.parent_id).chain_length as int
                == rec.chain_length - 1 {
                walk_ok(bi, rec.parent_id, w, stop)
            } else {
                false
            }
        }
    }
}

/// The id reached after `k` parent steps from `id`, each step decoding the
/// index entry of the id before it.
pub open spec fn walk_back(bi: Map<Seq<u8>, Seq<u8>>, id: Seq<u8>, k: nat) -> Seq<u8>
    decreases k,
{
    if k == 0 {
        id
    } else {
        let prev = walk_back(bi, id, (k - 1) as nat);
        spec_deserialize(bi[prev], prev).parent_id
    }
}

/// A run of ids whose every next entry is the decoded parent of the one
/// before it follows the parent walk from its first entry.
proof fn lemma_ids_follow_walk(bi: Map<Seq<u8>, Seq<u8>>, dids: Seq<Seq<u8>>, j: int)
    requires
        0 <= j < dids.len(),
        forall|i: int|
            0 <= i < dids.len() - 1 ==> #[trigger] dids[i + 1] == spec_deserialize(
                bi[dids[i]],
                dids[i],
            ).parent_id,
    ensures
        dids[j] == walk_back(bi, dids[0], j as nat),
    decreases j,
{
    if j > 0 {
        lemma_ids_follow_walk(bi, dids, j - 1);
        assert(dids[(j - 1) + 1] == spec_deserialize(bi[dids[j - 1]], dids[j - 1]).parent_id);
        assert(walk_back(bi, dids[0], j as nat) == ({
            let prev = walk_back(bi, dids[0], (j - 1) as nat);
            spec_deserialize(bi[prev], prev).parent_id
        }));
    } else {
        assert(walk_back(bi, dids[0], 0) == dids[0]);
    }
}

/// Materialize the ids of the ancestor run from the target block back to the
/// block at `stop_at_length`, newest first, by walking parent links through
/// the shared index. A target absent from the index, or one whose chain
/// length is below the stop length, yields no ids; a parent link that cannot
/// be resolved, or a record of the wrong width, or a parent that does not sit
/// one chain length below its child, is a corruption.
fn gather_blocks_ids(to: &Vec<u8>, block_info: &sled::Tree, stop_at_length: u32) -> (r: Result<
    (Vec<Vec<u8>>, Ghost<Seq<u32>>),
    StoreError,
>)
    ensures
        r matches Ok(p) ==> ({
            let bi = tree_entries(*block_info);
            let dids = p.0.deep_view();
            let first = spec_deserialize(bi[to@], to@).chain_length;
            &&& p.0@.len() == p.1@.len()
            &&& (forall|i: int|
                0 <= i < p.1@.len() ==> #[trigger] p.1@[i] as int == p.1@[0] as int + i)
            &&& (bi.contains_key(to@) ==> bi[to@].len() == to@.len() + 4)
            &&& (if bi.contains_key(to@) && first >= stop_at_length {
                p.1@ =~= length_range(stop_at_length, first)
            } else {
                p.0@.len() == 0
            })
            &&& (dids.len() > 0 ==> dids[0] == to@)
            &&& (forall|i: int|
                0 <= i < dids.len() ==> bi.contains_key(#[trigger] dids[i]) && bi[dids[i]].len()
                    == to@.len() + 4 && spec_deserialize(bi[dids[i]], dids[i]).chain_length
                    as int == first - i)
            &&& (forall|i: int|
                0 <= i < dids.len() - 1 ==> #[trigger] dids[i + 1] == spec_deserialize(
                    bi[dids[i]],
                    dids[i],
                ).parent_id)
        }),
        r == Err::<(Vec<Vec<u8>>, Ghost<Seq<u32>>), StoreError>(StoreError::Corruption)
            ==> tree_entries(*block_info).contains_key(to@) && !walk_ok(
            tree_entries(*block_info),
            to@,
            to@.len() as int,
            stop_at_length,
        ),
        r matches Err(e) ==> (e == StoreError::StorageError || e == StoreError::Corruption),
{
    let ghost bi = tree_entries(*block_info);
    let id_size = to.len();
    let mut ids: Vec<Vec<u8>> = Vec::new();
    let bin = match tree_get(block_info, to.as_slice()) {
        Err(_) => { return Err(StoreError::StorageError); },
        Ok(None) => { return Ok((ids, Ghost(Seq::empty()))); },
        Ok(Some(b)) => b,
    };
    if !(bin.len() >= 4 && bin.len() - 4 == id_size) {
        return Err(StoreError::Corruption);
    }
    let mut current = BlockInfo::deserialize(bin.as_slice(), id_size, copy_bytes(to));
    let ghost first_length = current.chain_length;
    if current.chain_length < stop_at_length {
        return Ok((ids, Ghost(Seq::empty())));
    }
    ids.push(copy_bytes(&current.id));
    proof {
        assert(ids.deep_view() =~~= seq![to@]);
    }
    while current.chain_length > stop_at_length
        invariant
            stop_at_length <= current.chain_length <= first_length,
            ids@.len() == first_length - current.chain_length + 1,
            current.id@.len() == id_size,
            current.parent_id@.len() == id_size,
            to@.len() == id_size,
            bi == tree_entries(*block_info),
            ids.deep_view()[0] == to@,
            ids.deep_view()[ids@.len() - 1] == current.id@,
            bi.contains_key(current.id@),
            spec_deserialize(bi[current.id@], current.id@) == current@,
            forall|i: int|
                0 <= i < ids@.len() ==> bi.contains_key(#[trigger] ids.deep_view()[i]) && bi[
                ids.deep_view()[i]].len() == id_size + 4 && spec_deserialize(
                    bi[ids.deep_view()[i]],
                    ids.deep_view()[i],
                ).chain_length as int == first_length - i,
            forall|i: int|
                0 <= i < ids@.len() - 1 ==> #[trigger] ids.deep_view()[i + 1]
                    == spec_deserialize(
                    bi[ids.deep_view()[i]],
                    ids.deep_view()[i],
                ).parent_id,
            walk_ok(bi, to@, id_size as int, stop_at_length) ==> walk_ok(
                bi,
                current.id@,
                id_size as int,
                stop_at_length,
            ),
        decreases current.chain_length - stop_at_length,
    {
        let ghost dids_before = ids.deep_view();
        let pbin = match tree_get(block_info, current.parent_id.as_slice()) {
            Err(_) => { return Err(StoreError::StorageError); },
            Ok(None) => {
                proof {
                    assert(!walk_ok(bi, current.id@, id_size as int, stop_at_length));
                }
                return Err(StoreError::Corruption);
            },
            Ok(Some(b)) => b,
        };
        if !(pbin.len() >= 4 && pbin.len() - 4 == id_size) {
            proof {
                assert(!walk_ok(bi, current.id@, id_size as int, stop_at_length));
            }
            return Err(StoreError::Corruption);
        }
        let parent = BlockInfo::deserialize(
            pbin.as_slice(),
            id_size,
            copy_bytes(&current.parent_id),
        );
        if parent.chain_length != current.chain_length - 1 {
            proof {
                assert(!walk_ok(bi, current.id@, id_size as int, stop_at_length));
            }
            return Err(StoreError::Corruption);
        }
        current = parent;
        ids.push(copy_bytes(&current.id));
        proof {
            assert(ids.deep_view() =~~= dids_before.push(current.id@));
        }
    }
    let ghost lens = length_range(stop_at_length, first_length);
    proof {
        assert(lens.len() == ids@.len());
        assert(forall|i: int|
            0 <= i < lens.len() ==> #[trigger] lens[i] as int == lens[0] as int + i);
    }
    Ok((ids, Ghost(lens)))
}

/// Law: for a target of chain length `chain_length` and a requested depth
/// `distance` with `1 <= distance <= chain_length + 1`, the owed run of chain
/// lengths has exactly `distance` entries, ascends one by one with no gap and
/// no repetition, and ends at the target's chain length.
pub proof fn lemma_run_shape(chain_length: u32, distance: u32)
    requires
        1 <= distance,
        distance <= chain_length as int + 1,
    ensures
        ({
            let run = length_range((chain_length as int + 1 - distance) as u32, chain_length);
            &&& run.len() == distance
            &&& (forall|i: int|
                0 <= i < run.len() - 1 ==> #[trigger] run[i + 1] as int == run[i] as int + 1)
            &&& run[run.len() - 1] == chain_length
            &&& run[0] as int == chain_length as int + 1 - distance
        }),
{
}

/// Law: whatever the mode, the chain lengths an iterator still owes are
/// consecutive: each is one more than the one before it, so the run has no
/// gap and no repetition and is strictly ascending.
pub proof fn lemma_pending_contiguous(it: StorageIterator)
    requires
        it.wf(),
    ensures
        forall|i: int|
            0 <= i < it.pending().len() - 1 ==> #[trigger] it.pending()[i + 1] as int
                == it.pending()[i] as int + 1,
{
}

} // verus!


