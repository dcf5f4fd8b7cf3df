use chain_store::codec::BlockInfo;
use chain_store::iterator::{Origin, StorageIterator, Value};
use chain_store::store::{PermanentStore, StoreError};

const W: usize = 4;

fn info(id: &[u8], parent: &[u8], chain_length: u32) -> BlockInfo {
    BlockInfo { id: id.to_vec(), parent_id: parent.to_vec(), chain_length }
}

struct Fixture {
    _db: sled::Db,
    block_info: sled::Tree,
    blocks: sled::Tree,
    permanent: PermanentStore,
}

/// Chain g(0) -> b1(1) -> b2(2) -> b3(3); g and b1 archived, b2 and b3 in the
/// working set. Block contents are distinct one-letter strings.
fn fixture() -> Fixture {
    let db = sled::Config::new().temporary(true).open().unwrap();
    let block_info = db.open_tree("block_info").unwrap();
    let blocks = db.open_tree("blocks").unwrap();
    let perm_info = db.open_tree("perm_info").unwrap();

    let g = info(&[0, 0, 0, 1], &[0, 0, 0, 0], 0);
    let b1 = info(&[0, 0, 0, 2], &[0, 0, 0, 1], 1);
    let b2 = info(&[0, 0, 0, 3], &[0, 0, 0, 2], 2);
    let b3 = info(&[0, 0, 0, 4], &[0, 0, 0, 3], 3);

    let pile = data_pile::Database::memory().unwrap();
    pile.append(&[b"g".as_ref(), b"a".as_ref()]).unwrap();
    perm_info.insert(&g.id, g.serialize()).unwrap();
    perm_info.insert(&b1.id, b1.serialize()).unwrap();

    block_info.insert(&b2.id, b2.serialize()).unwrap();
    block_info.insert(&b3.id, b3.serialize()).unwrap();
    blocks.insert(&b2.id, b"b".as_ref()).unwrap();
    blocks.insert(&b3.id, b"c".as_ref()).unwrap();

    let permanent = PermanentStore::new(pile, perm_info, W);
    Fixture { _db: db, block_info, blocks, permanent }
}

fn drain(mut it: StorageIterator) -> Vec<Value> {
    let mut out = Vec::new();
    while let Some(v) = it.next() {
        out.push(v);
    }
    out
}

#[test]
fn full_span_crosses_tiers_in_order() {
    let f = fixture();
    let it = StorageIterator::new(
        vec![0, 0, 0, 4],
        4,
        &f.permanent,
        f.block_info.clone(),
        f.blocks.clone(),
    )
    .unwrap();
    let got = drain(it);
    assert_eq!(got.len(), 4);
    let data: Vec<&[u8]> = got.iter().map(|v| v.data.as_slice()).collect();
    assert_eq!(data, vec![b"g".as_ref(), b"a".as_ref(), b"b".as_ref(), b"c".as_ref()]);
    let origins: Vec<Origin> = got.iter().map(|v| v.origin).collect();
    assert_eq!(
        origins,
        vec![Origin::Permanent, Origin::Permanent, Origin::Volatile, Origin::Volatile]
    );
}

#[test]
fn archival_only_run_stays_permanent() {
    let f = fixture();
    let it = StorageIterator::new(
        vec![0, 0, 0, 2],
        2,
        &f.permanent,
        f.block_info.clone(),
        f.blocks.clone(),
    )
    .unwrap();
    let got = drain(it);
    assert_eq!(got.len(), 2);
    assert_eq!(got[0].data, b"g".to_vec());
    assert_eq!(got[1].data, b"a".to_vec());
    assert_eq!(got[0].origin, Origin::Permanent);
    assert_eq!(got[1].origin, Origin::Permanent);
}

#[test]
fn volatile_only_run() {
    let f = fixture();
    let it = StorageIterator::new(
        vec![0, 0, 0, 4],
        2,
        &f.permanent,
        f.block_info.clone(),
        f.blocks.clone(),
    )
    .unwrap();
    let got = drain(it);
    assert_eq!(got.len(), 2);
    assert_eq!(got[0].data, b"b".to_vec());
    assert_eq!(got[1].data, b"c".to_vec());
    assert_eq!(got[0].origin, Origin::Volatile);
    assert_eq!(got[1].origin, Origin::Volatile);
}

#[test]
fn missing_id_fails_with_not_found() {
    let f = fixture();
    let r = StorageIterator::new(
        vec![9, 9, 9, 9],
        1,
        &f.permanent,
        f.block_info.clone(),
        f.blocks.clone(),
    );
    assert!(matches!(r, Err(StoreError::BlockNotFound)));
}

#[test]
fn depth_beyond_chain_length_is_a_contract_violation() {
    let f = fixture();
    let r = StorageIterator::new(
        vec![0, 0, 0, 4],
        5,
        &f.permanent,
        f.block_info.clone(),
        f.blocks.clone(),
    );
    assert!(matches!(
        r,
        Err(StoreError::ContractViolation { distance: 5, chain_length: 3 })
    ));
}

#[test]
fn depth_zero_is_a_contract_violation() {
    let f = fixture();
    let r = StorageIterator::new(
        vec![0, 0, 0, 2],
        0,
        &f.permanent,
        f.block_info.clone(),
        f.blocks.clone(),
    );
    assert!(matches!(
        r,
        Err(StoreError::ContractViolation { distance: 0, chain_length: 1 })
    ));
}

#[test]
fn depth_one_on_an_archived_target() {
    let f = fixture();
    let it = StorageIterator::new(
        vec![0, 0, 0, 2],
        1,
        &f.permanent,
        f.block_info.clone(),
        f.blocks.clone(),
    )
    .unwrap();
    let got = drain(it);
    assert_eq!(got.len(), 1);
    assert_eq!(got[0].data, b"a".to_vec());
    assert_eq!(got[0].origin, Origin::Permanent);
}

#[test]
fn depth_one_on_a_working_set_target() {
    let f = fixture();
    let it = StorageIterator::new(
        vec![0, 0, 0, 4],
        1,
        &f.permanent,
        f.block_info.clone(),
        f.blocks.clone(),
    )
    .unwrap();
    let got = drain(it);
    assert_eq!(got.len(), 1);
    assert_eq!(got[0].data, b"c".to_vec());
    assert_eq!(got[0].origin, Origin::Volatile);
}

#[test]
fn missing_working_set_content_ends_iteration_silently() {
    let f = fixture();
    // take b2's content away, as a finished migration would
    f.blocks.remove(&[0, 0, 0, 3]).unwrap();
    let it = StorageIterator::new(
        vec![0, 0, 0, 4],
        4,
        &f.permanent,
        f.block_info.clone(),
        f.blocks.clone(),
    )
    .unwrap();
    let got = drain(it);
    assert_eq!(got.len(), 2);
    assert_eq!(got[0].data, b"g".to_vec());
    assert_eq!(got[1].data, b"a".to_vec());
}

#[test]
fn target_resolved_through_the_archival_tier() {
    let f = fixture();
    // b1 is not in the shared index, only in the archival tier
    assert!(f.block_info.get([0, 0, 0, 2]).unwrap().is_none());
    let it = StorageIterator::new(
        vec![0, 0, 0, 2],
        2,
        &f.permanent,
        f.block_info.clone(),
        f.blocks.clone(),
    )
    .unwrap();
    assert_eq!(drain(it).len(), 2);
}

#[test]
fn every_allowed_depth_yields_exactly_that_many_items() {
    let f = fixture();
    for d in 1..=4u32 {
        let it = StorageIterator::new(
            vec![0, 0, 0, 4],
            d,
            &f.permanent,
            f.block_info.clone(),
            f.blocks.clone(),
        )
        .unwrap();
        let got = drain(it);
        assert_eq!(got.len(), d as usize);
        // the run always ends at the target
        assert_eq!(got.last().unwrap().data, b"c".to_vec());
    }
}

#[test]
fn index_lookup_finds_cached_records_only() {
    let f = fixture();
    let found = chain_store::store::index_get(&f.block_info, &[0, 0, 0, 3])
        .unwrap()
        .unwrap();
    assert_eq!(found.id, vec![0, 0, 0, 3]);
    assert_eq!(found.parent_id, vec![0, 0, 0, 2]);
    assert_eq!(found.chain_length, 2);
    // archived blocks are not in the shared index
    let absent = chain_store::store::index_get(&f.block_info, &[0, 0, 0, 1]).unwrap();
    assert!(absent.is_none());
}

#[test]
fn working_set_lookup_sees_only_volatile_content() {
    let f = fixture();
    let got = chain_store::store::working_set_get(&f.blocks, &[0, 0, 0, 4]).unwrap();
    assert_eq!(got, Some(b"c".to_vec()));
    // archived content is not addressable by id in the working set
    let absent = chain_store::store::working_set_get(&f.blocks, &[0, 0, 0, 1]).unwrap();
    assert!(absent.is_none());
}

#[test]
fn depth_one_landing_at_the_tier_boundary() {
    // the first wanted length equals the archival length exactly, so the run
    // is the first working-set block alone
    let f = fixture();
    let it = StorageIterator::new(
        vec![0, 0, 0, 3],
        1,
        &f.permanent,
        f.block_info.clone(),
        f.blocks.clone(),
    )
    .unwrap();
    let got = drain(it);
    assert_eq!(got.len(), 1);
    assert_eq!(got[0].data, b"b".to_vec());
    assert_eq!(got[0].origin, Origin::Volatile);
}

#[test]
fn unresolvable_parent_link_is_a_corruption_at_construction() {
    let f = fixture();
    // lose b2's metadata: the backward walk from b3 cannot resolve its parent
    f.block_info.remove(&[0, 0, 0, 3]).unwrap();
    let r = StorageIterator::new(
        vec![0, 0, 0, 4],
        2,
        &f.permanent,
        f.block_info.clone(),
        f.blocks.clone(),
    );
    assert!(matches!(r, Err(StoreError::Corruption)));
}

#[test]
fn unresolvable_parent_link_at_the_handoff_ends_iteration() {
    let f = fixture();
    f.block_info.remove(&[0, 0, 0, 3]).unwrap();
    let it = StorageIterator::new(
        vec![0, 0, 0, 4],
        4,
        &f.permanent,
        f.block_info.clone(),
        f.blocks.clone(),
    )
    .unwrap();
    let got = drain(it);
    assert_eq!(got.len(), 2);
    assert_eq!(got[0].data, b"g".to_vec());
    assert_eq!(got[1].data, b"a".to_vec());
}

#[test]
fn fork_in_the_working_set_follows_the_target_branch() {
    let f = fixture();
    // a competing child of b1, at the same chain length as b2
    let alt = info(&[0, 0, 0, 9], &[0, 0, 0, 2], 2);
    f.block_info.insert(&alt.id, alt.serialize()).unwrap();
    f.blocks.insert(&alt.id, b"x".as_ref()).unwrap();
    let it = StorageIterator::new(
        vec![0, 0, 0, 4],
        2,
        &f.permanent,
        f.block_info.clone(),
        f.blocks.clone(),
    )
    .unwrap();
    let got = drain(it);
    assert_eq!(got.len(), 2);
    assert_eq!(got[0].data, b"b".to_vec());
    assert_eq!(got[1].data, b"c".to_vec());
}
