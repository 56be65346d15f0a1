use marfed_kv::backing::{
    block_at_height_from, check_move, checked_height_at, height_at, value_at,
    value_with_proof_at, ClarityBackingStore,
};
use marfed_kv::errors::{Error, InterpreterError, RuntimeErrorType, VmError};
use marfed_kv::store::MarfedKV;
use marfed_kv::types::{BlockHeaderHash, MARFValue, StacksBlockId, TrieHash};

fn block(n: u8) -> StacksBlockId {
    StacksBlockId([n; 32])
}

#[test]
fn committed_value_is_read_back_at_height_one() {
    let mut kv = MarfedKV::open(None);
    let genesis = StacksBlockId::sentinel();
    let block1 = block(1);
    let mut w = kv.begin(&genesis, &block1);
    w.put_all(vec![("k".to_string(), "v".to_string())]);
    w.commit_to(&block1);

    let mut r = kv.begin_read_only(Some(&block1));
    assert_eq!(r.get("k"), Some("v".to_string()));
    assert_eq!(r.get_current_block_height(), 1);
}

#[test]
fn rolled_back_block_is_unknown() {
    let mut kv = MarfedKV::open(None);
    let genesis = StacksBlockId::sentinel();
    let block_x = block(7);
    let mut w = kv.begin(&genesis, &block_x);
    w.put_all(vec![("k".to_string(), "bad".to_string())]);
    w.rollback_block();

    match kv.begin_read_only_checked(Some(&block_x)) {
        Ok(_) => panic!("a rolled-back block must not be readable"),
        Err(e) => assert_eq!(
            e,
            VmError::Interpreter(InterpreterError::MarfFailure(Error::NotFoundError))
        ),
    }
}

fn pair(key: &str, value: &str) -> (String, String) {
    (key.to_string(), value.to_string())
}

#[test]
fn every_pair_of_a_batch_is_read_back() {
    let mut kv = MarfedKV::open(None);
    let genesis = StacksBlockId::sentinel();
    let tip = block(1);
    let mut w = kv.begin(&genesis, &block(9));
    w.put_all(vec![pair("a", "1"), pair("b", "2"), pair("c", "")]);
    assert_eq!(w.get("a"), Some("1".to_string()));
    w.commit_to(&tip);

    let mut r = kv.begin_read_only(Some(&tip));
    assert_eq!(r.get("a"), Some("1".to_string()));
    assert_eq!(r.get("b"), Some("2".to_string()));
    assert_eq!(r.get("c"), Some("".to_string()));
    assert_eq!(r.get("d"), None);

    let mut again = kv.begin(&tip, &block(2));
    assert_eq!(again.get("b"), Some("2".to_string()));
    again.rollback_block();
}

#[test]
fn last_pair_for_a_key_is_read_back() {
    let mut kv = MarfedKV::open(None);
    let mut w = kv.begin(&StacksBlockId::sentinel(), &block(1));
    w.put_all(vec![pair("k", "first"), pair("k", "second")]);
    w.put_all(vec![pair("j", "first")]);
    w.commit_to(&block(1));
    let mut r = kv.begin_read_only(Some(&block(1)));
    assert_eq!(r.get("k"), Some("second".to_string()));
    assert_eq!(r.get("j"), Some("first".to_string()));
}

#[test]
fn forks_do_not_see_each_other() {
    let mut kv = MarfedKV::open(None);
    let genesis = StacksBlockId::sentinel();
    let mut w = kv.begin(&genesis, &block(1));
    w.put_all(vec![pair("shared", "base")]);
    w.commit_to(&block(1));
    let mut b = kv.begin(&block(1), &block(3));
    b.put_all(vec![pair("k", "on b")]);
    b.commit_to(&block(3));
    let mut a = kv.begin(&block(1), &block(2));
    a.put_all(vec![pair("k", "on a"), pair("only-a", "x")]);
    a.commit_to(&block(2));

    let mut r = kv.begin_read_only(Some(&block(3)));
    assert_eq!(r.get("k"), Some("on b".to_string()));
    assert_eq!(r.get("only-a"), None);
    assert_eq!(r.get("shared"), Some("base".to_string()));
    assert_eq!(
        r.set_block_hash(block(2)),
        Err(VmError::Runtime(RuntimeErrorType::NonMatchingFork(BlockHeaderHash([2u8; 32]))))
    );
    assert_eq!(r.get("k"), Some("on b".to_string()));
    assert_eq!(
        r.set_block_hash(block(8)),
        Err(VmError::Runtime(RuntimeErrorType::UnknownBlockHeaderHash(BlockHeaderHash(
            [8u8; 32]
        ))))
    );
    assert_eq!(r.set_block_hash(block(1)), Ok(block(3)));
    assert_eq!(r.get("k"), None);
    assert_eq!(r.get("shared"), Some("base".to_string()));
    assert_eq!(r.set_block_hash(block(2)), Ok(block(1)));
    assert_eq!(r.get("k"), Some("on a".to_string()));
    assert_eq!(r.get("only-a"), Some("x".to_string()));
}

#[test]
fn rolled_back_writes_are_gone_but_values_stay_in_the_side_store() {
    let mut kv = MarfedKV::open(None);
    let genesis = StacksBlockId::sentinel();
    let mut w = kv.begin(&genesis, &block(1));
    w.put_all(vec![pair("k", "bad")]);
    assert_eq!(w.get("k"), Some("bad".to_string()));
    w.rollback_block();

    let mut r = kv.begin_read_only(Some(&genesis));
    assert_eq!(r.get("k"), None);
    assert!(!r.trie_exists_for_block(&block(1)));
    assert!(r.trie_exists_for_block(&genesis));
    let side_key = MARFValue::from_value("bad").to_hex();
    assert_eq!(r.get_side_store().get(&side_key), Some("bad".to_string()));

    let mut w = kv.begin(&genesis, &block(1));
    assert_eq!(w.get("k"), None);
    w.commit_to(&block(1));
    let mut r = kv.begin_read_only(Some(&block(1)));
    assert_eq!(r.get("k"), None);
}

#[test]
fn abandoned_view_is_rolled_back_by_the_next() {
    let mut kv = MarfedKV::open(None);
    let genesis = StacksBlockId::sentinel();
    {
        let mut w = kv.begin(&genesis, &block(1));
        w.put_all(vec![pair("k", "lost")]);
    }
    assert!(kv.begin_read_only_checked(Some(&block(1))).is_err());
    let mut w = kv.begin(&genesis, &block(1));
    assert_eq!(w.get("k"), None);
    w.rollback_block();
}

#[test]
fn same_value_under_two_keys_is_stored_once_and_read_twice() {
    let mut kv = MarfedKV::open(None);
    let mut w = kv.begin(&StacksBlockId::sentinel(), &block(1));
    w.put_all(vec![pair("a", "same"), pair("b", "same")]);
    w.put_all(vec![pair("c", "same")]);
    w.commit_to(&block(1));
    let mut r = kv.begin_read_only(Some(&block(1)));
    assert_eq!(r.get("a"), Some("same".to_string()));
    assert_eq!(r.get("b"), Some("same".to_string()));
    assert_eq!(r.get("c"), Some("same".to_string()));
}

#[test]
fn each_height_has_its_own_block() {
    let mut kv = MarfedKV::open(None);
    let genesis = StacksBlockId::sentinel();
    let mut parent = genesis;
    for n in 1..=4u8 {
        let w = kv.begin(&parent, &block(n));
        w.commit_to(&block(n));
        parent = block(n);
    }
    let mut r = kv.begin_read_only(Some(&block(4)));
    assert_eq!(r.get_current_block_height(), 4);
    assert_eq!(r.get_block_at_height(0), Some(genesis));
    for n in 1..=4u8 {
        assert_eq!(r.get_block_at_height(n as u32), Some(block(n)));
    }
    assert_eq!(r.get_block_at_height(5), None);
    assert_eq!(r.set_block_hash(block(2)), Ok(block(4)));
    assert_eq!(r.get_current_block_height(), 2);
    assert_eq!(r.get_block_at_height(3), None);
    assert_eq!(r.set_block_hash(genesis), Ok(block(2)));
    assert_eq!(r.get_current_block_height(), 0);
}

#[test]
fn first_block_has_height_zero_where_the_index_knows_nothing() {
    let first = StacksBlockId::first_block();
    let mut kv = MarfedKV::open(Some(&first));
    assert_eq!(kv.get_chain_tip(), &first);
    let mut r = kv.begin_read_only(None);
    assert_eq!(r.get_current_block_height(), 0);
    assert_eq!(r.get("k"), None);
    assert_eq!(r.get_block_at_height(0), Some(first));
    assert_eq!(r.get_block_at_height(1), None);

    let mut kv = MarfedKV::open(None);
    kv.set_chain_tip(&StacksBlockId::zero());
    let mut r = kv.begin_read_only(None);
    assert_eq!(r.get_current_block_height(), 0);
    assert_eq!(r.get_block_at_height(0), Some(StacksBlockId::zero()));
    assert_eq!(r.get_block_at_height(1), None);

    let mut kv = MarfedKV::open(None);
    kv.set_chain_tip(&block(5));
    let mut r = kv.begin_read_only(None);
    assert_eq!(r.get_block_at_height(0), None);
}

#[test]
fn handle_keeps_its_own_block() {
    let mut kv = MarfedKV::temporary();
    assert_eq!(kv.get_chain_tip(), &StacksBlockId::sentinel());
    assert_eq!(kv.get_root_hash(), TrieHash::empty());
    let mut w = kv.begin(&StacksBlockId::sentinel(), &block(1));
    w.put_all(vec![pair("k", "v")]);
    let root = w.get_root_hash();
    assert_eq!(root, TrieHash::empty().extend("k", &MARFValue::from_value("v")));
    assert_eq!(w.get_open_chain_tip(), block(1));
    assert_eq!(w.get_open_chain_tip_height(), 1);
    assert_eq!(w.get_current_block_height(), 1);
    assert_eq!(w.get_block_at_height(1), Some(block(1)));
    w.test_commit();
    assert_eq!(kv.get_chain_tip(), &StacksBlockId::sentinel());
    assert_eq!(kv.get_root_hash(), TrieHash::empty());
    kv.set_chain_tip(&block(1));
    assert_eq!(kv.get_root_hash(), root);
    assert!(kv.get_marf().has_block(&block(1)));
    assert_eq!(
        kv.sql_conn().get(&MARFValue::from_value("v").to_hex()),
        Some("v".to_string())
    );
    let conn = kv.index_conn(7u8);
    assert_eq!(conn.context, 7u8);
    assert!(conn.index.has_block(&block(1)));
    let mut r = kv.begin_read_only(None);
    assert_eq!(r.get("k"), Some("v".to_string()));
}

#[test]
fn write_view_looks_back_and_returns() {
    let mut kv = MarfedKV::open(None);
    let genesis = StacksBlockId::sentinel();
    let mut w = kv.begin(&genesis, &block(1));
    w.put_all(vec![pair("k", "old")]);
    w.commit_to(&block(1));
    let mut w = kv.begin(&block(1), &block(2));
    w.put_all(vec![pair("k", "new")]);
    assert_eq!(w.set_block_hash(block(1)), Ok(block(2)));
    assert_eq!(w.get("k"), Some("old".to_string()));
    assert_eq!(w.get_current_block_height(), 1);
    assert_eq!(w.get_open_chain_tip(), block(2));
    assert_eq!(w.set_block_hash(block(2)), Ok(block(1)));
    assert_eq!(w.get("k"), Some("new".to_string()));
    w.commit_to(&block(2));
}

#[test]
fn commit_hands_the_bookkeeping_to_the_final_block() {
    let mut kv = MarfedKV::open(None);
    let genesis = StacksBlockId::sentinel();
    let mut w = kv.begin(&genesis, &block(9));
    w.insert_metadata("contract", "size");
    assert_eq!(
        w.get_side_store().get_metadata(&block(9), "contract"),
        Some("size".to_string())
    );
    w.commit_to(&block(1));
    assert_eq!(kv.sql_conn().get_metadata(&block(9), "contract"), None);
    assert_eq!(kv.sql_conn().get_metadata(&block(1), "contract"), Some("size".to_string()));
}

#[test]
fn mined_block_is_committed_without_its_bookkeeping() {
    let mut kv = MarfedKV::open(None);
    let genesis = StacksBlockId::sentinel();
    let mut w = kv.begin(&genesis, &block(9));
    w.insert_metadata("contract", "size");
    w.put_all(vec![pair("k", "mined")]);
    w.commit_mined_block(&block(1));
    assert_eq!(kv.sql_conn().get_metadata(&block(9), "contract"), None);
    assert_eq!(kv.sql_conn().get_metadata(&block(1), "contract"), None);
    let mut r = kv.begin_read_only(Some(&block(1)));
    assert_eq!(r.get("k"), Some("mined".to_string()));
    assert!(!r.trie_exists_for_block(&block(9)));
}

#[test]
fn rollback_leaves_the_bookkeeping_and_unconfirmed_rollback_drops_it() {
    let mut kv = MarfedKV::open_unconfirmed(None);
    let genesis = StacksBlockId::sentinel();
    let mut w = kv.begin(&genesis, &block(1));
    w.insert_metadata("contract", "kept");
    w.rollback_block();
    assert_eq!(kv.sql_conn().get_metadata(&block(1), "contract"), Some("kept".to_string()));

    let w = kv.begin(&genesis, &block(2));
    w.commit_to(&block(2));
    let unconfirmed = block(2).to_unconfirmed();
    let mut u = kv.begin_unconfirmed(&block(2));
    assert_eq!(u.get_open_chain_tip(), unconfirmed);
    u.insert_metadata("contract", "dropped");
    u.put_all(vec![pair("k", "u")]);
    u.rollback_unconfirmed();
    assert_eq!(kv.sql_conn().get_metadata(&unconfirmed, "contract"), None);
    assert!(kv.begin_read_only_checked(Some(&unconfirmed)).is_err());
}

#[test]
fn unconfirmed_state_is_committed_under_its_own_identifier() {
    let mut kv = MarfedKV::open_unconfirmed(None);
    let genesis = StacksBlockId::sentinel();
    let mut w = kv.begin(&genesis, &block(1));
    w.put_all(vec![pair("k", "confirmed")]);
    w.commit_to(&block(1));
    let unconfirmed = block(1).to_unconfirmed();

    let mut u = kv.begin_unconfirmed(&block(1));
    assert_eq!(u.get("k"), Some("confirmed".to_string()));
    u.put_all(vec![pair("k", "unconfirmed")]);
    u.insert_metadata("contract", "kept");
    u.commit_unconfirmed();
    assert_eq!(kv.sql_conn().get_metadata(&unconfirmed, "contract"), Some("kept".to_string()));

    let mut r = kv.begin_read_only(Some(&unconfirmed));
    assert_eq!(r.get("k"), Some("unconfirmed".to_string()));
    assert_eq!(r.get_current_block_height(), 2);
    assert_eq!(r.set_block_hash(block(1)), Ok(unconfirmed));
    assert_eq!(r.get("k"), Some("confirmed".to_string()));

    let mut u = kv.begin_unconfirmed(&block(1));
    assert_eq!(u.get("k"), Some("unconfirmed".to_string()));
    u.put_all(vec![pair("l", "more")]);
    u.commit_unconfirmed();
    let mut r = kv.begin_read_only(Some(&unconfirmed));
    assert_eq!(r.get("k"), Some("unconfirmed".to_string()));
    assert_eq!(r.get("l"), Some("more".to_string()));
}

#[test]
fn checked_view_opens_where_the_block_is_committed() {
    let mut kv = MarfedKV::open(None);
    let genesis = StacksBlockId::sentinel();
    let mut w = kv.begin(&genesis, &block(1));
    w.put_all(vec![pair("k", "v")]);
    w.commit_to(&block(1));
    match kv.begin_read_only_checked(Some(&block(1))) {
        Ok(mut r) => assert_eq!(r.get("k"), Some("v".to_string())),
        Err(e) => panic!("a committed block must be readable: {:?}", e),
    }
    match kv.begin_read_only_checked(None) {
        Ok(mut r) => assert_eq!(r.get("k"), None),
        Err(e) => panic!("the block of the handle must be readable: {:?}", e),
    }
}

#[test]
fn height_is_none_for_an_unknown_block_that_is_not_the_first() {
    let mut kv = MarfedKV::open(None);
    let w = kv.begin(&StacksBlockId::sentinel(), &block(1));
    w.commit_to(&block(1));
    let marf = kv.get_marf();
    assert_eq!(checked_height_at(marf, &block(1)), Some(1));
    assert_eq!(checked_height_at(marf, &StacksBlockId::sentinel()), Some(0));
    assert_eq!(checked_height_at(marf, &block(5)), None);
    assert_eq!(checked_height_at(marf, &StacksBlockId::first_block()), Some(0));
    assert_eq!(checked_height_at(marf, &StacksBlockId::zero()), Some(0));
    assert_eq!(height_at(marf, &block(1)), 1);
    assert_eq!(block_at_height_from(marf, &block(1), 0), Some(StacksBlockId::sentinel()));
    assert_eq!(block_at_height_from(marf, &block(1), 1), Some(block(1)));
    assert_eq!(block_at_height_from(marf, &block(1), 2), None);
    assert_eq!(block_at_height_from(marf, &block(5), 0), None);
    assert_eq!(
        block_at_height_from(marf, &StacksBlockId::first_block(), 0),
        Some(StacksBlockId::first_block())
    );
    assert_eq!(block_at_height_from(marf, &StacksBlockId::first_block(), 1), None);
    assert_eq!(value_at(marf, &block(1), "k"), None);
    assert!(value_with_proof_at(marf, &block(1), "k").is_none());
    assert_eq!(check_move(marf, &block(1), &StacksBlockId::sentinel()), Ok(()));
    assert_eq!(
        check_move(marf, &block(1), &block(5)),
        Err(RuntimeErrorType::UnknownBlockHeaderHash(BlockHeaderHash([5u8; 32])))
    );
}

#[test]
fn empty_batch_and_odd_texts_are_taken() {
    let mut kv = MarfedKV::open(None);
    let mut w = kv.begin(&StacksBlockId::sentinel(), &block(1));
    let before = w.get_root_hash();
    w.put_all(vec![]);
    assert_eq!(w.get_root_hash(), before);
    w.put_all(vec![pair("", "empty key"), pair("clé", "välue ✓"), pair("long", &"x".repeat(4096))]);
    assert_ne!(w.get_root_hash(), before);
    w.commit_to(&block(1));
    let mut r = kv.begin_read_only(Some(&block(1)));
    assert_eq!(r.get(""), Some("empty key".to_string()));
    assert_eq!(r.get("clé"), Some("välue ✓".to_string()));
    assert_eq!(r.get("long"), Some("x".repeat(4096)));
    assert_eq!(r.get("cle"), None);
}

#[test]
fn commit_hands_over_the_rows_of_the_block_it_built_after_the_view_moved() {
    let mut kv = MarfedKV::open(None);
    let genesis = StacksBlockId::sentinel();
    let mut w = kv.begin(&genesis, &block(1));
    w.insert_metadata("contract", "built");
    assert_eq!(w.set_block_hash(genesis), Ok(block(1)));
    w.commit_to(&block(2));
    assert_eq!(kv.sql_conn().get_metadata(&block(1), "contract"), None);
    assert_eq!(kv.sql_conn().get_metadata(&block(2), "contract"), Some("built".to_string()));
    assert_eq!(kv.sql_conn().get_metadata(&genesis, "contract"), None);
}

#[test]
fn commit_leaves_the_rows_of_the_parent_after_the_view_moved() {
    let mut kv = MarfedKV::open(None);
    let genesis = StacksBlockId::sentinel();
    let mut w = kv.begin(&genesis, &block(1));
    w.insert_metadata("contract", "parent");
    w.commit_to(&block(1));

    let mut w = kv.begin(&block(1), &block(2));
    w.insert_metadata("contract", "child");
    assert_eq!(w.set_block_hash(block(1)), Ok(block(2)));
    w.commit_to(&block(3));
    assert_eq!(kv.sql_conn().get_metadata(&block(1), "contract"), Some("parent".to_string()));
    assert_eq!(kv.sql_conn().get_metadata(&block(2), "contract"), None);
    assert_eq!(kv.sql_conn().get_metadata(&block(3), "contract"), Some("child".to_string()));
}

#[test]
fn mined_commit_drops_the_rows_of_the_block_it_built_after_the_view_moved() {
    let mut kv = MarfedKV::open(None);
    let genesis = StacksBlockId::sentinel();
    let mut w = kv.begin(&genesis, &block(1));
    w.insert_metadata("contract", "parent");
    w.commit_to(&block(1));

    let mut w = kv.begin(&block(1), &block(2));
    w.insert_metadata("contract", "mined");
    assert_eq!(w.set_block_hash(block(1)), Ok(block(2)));
    w.commit_mined_block(&block(3));
    assert_eq!(kv.sql_conn().get_metadata(&block(1), "contract"), Some("parent".to_string()));
    assert_eq!(kv.sql_conn().get_metadata(&block(2), "contract"), None);
    assert_eq!(kv.sql_conn().get_metadata(&block(3), "contract"), None);
    assert!(kv.get_marf().has_block(&block(3)));
}

#[test]
fn unconfirmed_rollback_drops_the_rows_of_its_trie_after_the_view_moved() {
    let mut kv = MarfedKV::open_unconfirmed(None);
    let genesis = StacksBlockId::sentinel();
    let mut w = kv.begin(&genesis, &block(1));
    w.insert_metadata("contract", "parent");
    w.commit_to(&block(1));
    let unconfirmed = block(1).to_unconfirmed();

    let mut u = kv.begin_unconfirmed(&block(1));
    u.insert_metadata("contract", "unconfirmed");
    assert_eq!(u.set_block_hash(block(1)), Ok(unconfirmed));
    u.rollback_unconfirmed();
    assert_eq!(kv.sql_conn().get_metadata(&block(1), "contract"), Some("parent".to_string()));
    assert_eq!(kv.sql_conn().get_metadata(&unconfirmed, "contract"), None);
}

#[test]
fn test_commit_hands_over_to_the_block_the_view_looks_at() {
    let mut kv = MarfedKV::open(None);
    let genesis = StacksBlockId::sentinel();
    let mut w = kv.begin(&genesis, &block(1));
    w.insert_metadata("contract", "kept");
    w.test_commit();
    assert_eq!(kv.sql_conn().get_metadata(&block(1), "contract"), Some("kept".to_string()));
    assert!(kv.get_marf().has_block(&block(1)));
}

#[test]
fn handle_reads_no_root_hash_of_an_abandoned_view() {
    let mut kv = MarfedKV::open(None);
    let genesis = StacksBlockId::sentinel();
    {
        let mut w = kv.begin(&genesis, &block(1));
        w.put_all(vec![pair("k", "lost")]);
    }
    assert_eq!(kv.get_marf().get_open_chain_tip(), Some(block(1)));
    assert_eq!(kv.get_root_hash(), TrieHash::empty());
    assert_eq!(kv.get_marf().get_open_chain_tip(), None);
    kv.set_chain_tip(&block(1));
    assert_eq!(kv.get_marf().get_root_hash_at(&block(1)), Err(Error::NotFoundError));
}
