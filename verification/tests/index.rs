use marfed_kv::errors::Error;
use marfed_kv::index::Marf;
use marfed_kv::types::{MARFValue, StacksBlockId, TrieHash};

fn id(n: u8) -> StacksBlockId {
    StacksBlockId([n; 32])
}

fn stored(marf: &mut Marf, value: &str) -> MARFValue {
    let hash = MARFValue::from_value(value);
    marf.put_value(&hash.to_hex(), value);
    hash
}

#[test]
fn new_index_holds_the_sentinel_alone() {
    let marf = Marf::new(false);
    assert!(marf.has_block(&StacksBlockId::sentinel()));
    assert!(!marf.has_block(&id(1)));
    assert_eq!(marf.open_block(&StacksBlockId::sentinel()), Ok(()));
    assert_eq!(marf.open_block(&id(1)), Err(Error::NotFoundError));
    assert_eq!(marf.get_open_chain_tip(), None);
    assert_eq!(marf.get_open_chain_tip_height(), None);
    assert_eq!(marf.get_root_hash_at(&StacksBlockId::sentinel()), Ok(TrieHash::empty()));
    assert_eq!(marf.get_root_hash_at(&id(1)), Err(Error::NotFoundError));
    assert_eq!(marf.get_block_height_of(&StacksBlockId::sentinel(), &StacksBlockId::sentinel()), Some(0));
}

#[test]
fn begin_reports_why_it_cannot() {
    let mut marf = Marf::new(false);
    let genesis = StacksBlockId::sentinel();
    assert!(marf.can_begin(&genesis, &id(1)));
    assert!(!marf.can_begin(&id(9), &id(1)));
    assert!(!marf.can_begin(&genesis, &genesis));
    assert_eq!(marf.begin(&id(9), &id(1)), Err(Error::NotFoundError));
    assert_eq!(marf.begin(&genesis, &genesis), Err(Error::ExistsError));
    assert_eq!(marf.begin(&genesis, &id(1)), Ok(()));
    assert_eq!(marf.begin(&genesis, &id(2)), Err(Error::InProgressError));
    assert_eq!(marf.get_open_chain_tip(), Some(id(1)));
    assert_eq!(marf.get_open_chain_tip_height(), Some(1));
    assert_eq!(marf.commit_to(&id(1)), Ok(()));
    assert_eq!(marf.begin(&genesis, &id(1)), Err(Error::ExistsError));
}

#[test]
fn writes_need_an_open_trie() {
    let mut marf = Marf::new(false);
    let hash = stored(&mut marf, "v");
    assert_eq!(
        marf.insert_batch(&vec!["k".to_string()], vec![hash]),
        Err(Error::WriteNotBegunError)
    );
    assert_eq!(marf.commit_to(&id(1)), Err(Error::WriteNotBegunError));
    assert_eq!(marf.commit_mined(&id(1)), Err(Error::WriteNotBegunError));
    assert_eq!(marf.commit(), Err(Error::WriteNotBegunError));
    assert!(!marf.can_commit_to(&id(1)));
}

#[test]
fn open_trie_is_read_at_its_own_identifier() {
    let mut marf = Marf::new(false);
    let genesis = StacksBlockId::sentinel();
    let hash = stored(&mut marf, "v");
    marf.begin(&genesis, &id(1)).unwrap();
    assert_eq!(marf.insert_batch(&vec!["k".to_string()], vec![hash]), Ok(()));
    assert_eq!(marf.get(&id(1), "k"), Some(hash));
    assert_eq!(marf.get(&genesis, "k"), None);
    assert!(!marf.has_block(&id(1)));
    assert!(marf.can_commit_to(&id(2)));
    assert!(!marf.can_commit_to(&genesis));
    assert_eq!(marf.commit_to(&genesis), Err(Error::ExistsError));
    assert_eq!(marf.commit_to(&id(2)), Ok(()));
    assert_eq!(marf.get(&id(2), "k"), Some(hash));
    assert_eq!(marf.get(&id(1), "k"), None);
    assert!(marf.has_block(&id(2)));
    assert!(!marf.has_block(&id(1)));
}

#[test]
fn later_write_to_a_key_wins_and_children_inherit() {
    let mut marf = Marf::new(false);
    let genesis = StacksBlockId::sentinel();
    let one = stored(&mut marf, "one");
    let two = stored(&mut marf, "two");
    marf.begin(&genesis, &id(1)).unwrap();
    marf.insert_batch(
        &vec!["a".to_string(), "b".to_string(), "a".to_string()],
        vec![one, one, two],
    )
    .unwrap();
    marf.commit().unwrap();
    assert_eq!(marf.get(&id(1), "a"), Some(two));
    assert_eq!(marf.get(&id(1), "b"), Some(one));

    marf.begin(&id(1), &id(2)).unwrap();
    marf.insert_batch(&vec!["b".to_string()], vec![two]).unwrap();
    marf.commit().unwrap();
    assert_eq!(marf.get(&id(2), "a"), Some(two));
    assert_eq!(marf.get(&id(2), "b"), Some(two));
    assert_eq!(marf.get(&id(1), "b"), Some(one));
}

#[test]
fn root_hash_follows_the_writes_in_order() {
    let mut marf = Marf::new(false);
    let genesis = StacksBlockId::sentinel();
    let v = stored(&mut marf, "v");
    let w = stored(&mut marf, "w");
    marf.begin(&genesis, &id(1)).unwrap();
    assert_eq!(marf.get_root_hash_at(&id(1)), Ok(TrieHash::empty()));
    marf.insert_batch(&vec!["k".to_string(), "l".to_string()], vec![v, w]).unwrap();
    let expected = TrieHash::empty().extend("k", &v).extend("l", &w);
    let swapped = TrieHash::empty().extend("l", &w).extend("k", &v);
    assert_eq!(marf.get_root_hash_at(&id(1)), Ok(expected));
    assert_ne!(expected, swapped);
    marf.commit_to(&id(1)).unwrap();
    assert_eq!(marf.get_root_hash_at(&id(1)), Ok(expected));
}

#[test]
fn heights_and_ancestors_follow_the_chain() {
    let mut marf = Marf::new(false);
    let genesis = StacksBlockId::sentinel();
    marf.begin(&genesis, &id(1)).unwrap();
    marf.commit().unwrap();
    marf.begin(&id(1), &id(2)).unwrap();
    marf.commit().unwrap();
    marf.begin(&id(1), &id(3)).unwrap();
    marf.commit().unwrap();

    assert_eq!(marf.get_block_height_of(&id(2), &id(2)), Some(2));
    assert_eq!(marf.get_block_height_of(&id(1), &id(2)), Some(1));
    assert_eq!(marf.get_block_height_of(&genesis, &id(2)), Some(0));
    assert_eq!(marf.get_block_height_of(&id(3), &id(2)), None);
    assert_eq!(marf.get_block_height_of(&id(2), &id(9)), None);

    assert_eq!(marf.get_bhh_at_height(&id(2), 0), Some(genesis));
    assert_eq!(marf.get_bhh_at_height(&id(2), 1), Some(id(1)));
    assert_eq!(marf.get_bhh_at_height(&id(2), 2), Some(id(2)));
    assert_eq!(marf.get_bhh_at_height(&id(2), 3), None);
    assert_eq!(marf.get_bhh_at_height(&id(9), 0), None);

    assert_eq!(marf.check_ancestor_block_hash(&id(2), &id(1)), Ok(()));
    assert_eq!(marf.check_ancestor_block_hash(&id(1), &id(3)), Ok(()));
    assert_eq!(marf.check_ancestor_block_hash(&id(2), &id(2)), Ok(()));
    assert_eq!(marf.check_ancestor_block_hash(&id(9), &id(2)), Ok(()));
    assert_eq!(
        marf.check_ancestor_block_hash(&id(2), &id(3)),
        Err(Error::NonMatchingForks([3u8; 32], [2u8; 32]))
    );
    assert_eq!(marf.check_ancestor_block_hash(&id(2), &id(9)), Err(Error::NotFoundError));
}

#[test]
fn dropped_trie_leaves_nothing() {
    let mut marf = Marf::new(false);
    let genesis = StacksBlockId::sentinel();
    let v = stored(&mut marf, "v");
    marf.begin(&genesis, &id(1)).unwrap();
    marf.insert_batch(&vec!["k".to_string()], vec![v]).unwrap();
    marf.drop_current();
    assert_eq!(marf.get_open_chain_tip(), None);
    assert_eq!(marf.get(&id(1), "k"), None);
    assert!(!marf.has_block(&id(1)));
    assert_eq!(marf.begin(&genesis, &id(1)), Ok(()));
    assert_eq!(marf.get(&id(1), "k"), None);
    marf.drop_unconfirmed();
    assert_eq!(marf.get_open_chain_tip(), None);
}

#[test]
fn unconfirmed_trie_is_taken_up_again() {
    let mut marf = Marf::new(true);
    let genesis = StacksBlockId::sentinel();
    let v = stored(&mut marf, "v");
    let w = stored(&mut marf, "w");
    marf.begin(&genesis, &id(1)).unwrap();
    marf.commit().unwrap();

    assert!(marf.can_begin_unconfirmed(&id(1)));
    assert!(!marf.can_begin_unconfirmed(&id(9)));
    let unconfirmed = marf.begin_unconfirmed(&id(1)).unwrap();
    assert_eq!(unconfirmed, id(1).to_unconfirmed());
    assert_eq!(marf.get_open_chain_tip_height(), Some(2));
    assert_eq!(marf.commit_to(&id(5)), Err(Error::UnconfirmedError));
    marf.insert_batch(&vec!["k".to_string()], vec![v]).unwrap();
    assert_eq!(marf.commit(), Ok(()));
    assert_eq!(marf.get(&unconfirmed, "k"), Some(v));

    assert_eq!(marf.begin_unconfirmed(&id(1)), Ok(unconfirmed));
    assert_eq!(marf.get(&unconfirmed, "k"), Some(v));
    marf.insert_batch(&vec!["l".to_string()], vec![w]).unwrap();
    assert_eq!(marf.commit(), Ok(()));
    assert_eq!(marf.get(&unconfirmed, "k"), Some(v));
    assert_eq!(marf.get(&unconfirmed, "l"), Some(w));

    assert_eq!(marf.begin(&unconfirmed, &id(2)), Err(Error::UnconfirmedError));
    assert_eq!(marf.begin_unconfirmed(&unconfirmed), Err(Error::UnconfirmedError));
    assert_eq!(marf.begin_unconfirmed(&id(9)), Err(Error::NotFoundError));
    marf.begin(&id(1), &id(2)).unwrap();
    assert_eq!(marf.begin_unconfirmed(&id(1)), Err(Error::InProgressError));
}

#[test]
fn unconfirmed_trie_needs_an_index_that_takes_it() {
    let mut marf = Marf::new(false);
    assert!(!marf.can_begin_unconfirmed(&StacksBlockId::sentinel()));
    assert_eq!(
        marf.begin_unconfirmed(&StacksBlockId::sentinel()),
        Err(Error::UnconfirmedError)
    );
    let mut taking = Marf::new(true);
    assert_eq!(
        taking.begin_unconfirmed(&StacksBlockId::sentinel()),
        Ok(StacksBlockId::zero())
    );
    taking.drop_unconfirmed();
    taking.begin(&StacksBlockId::sentinel(), &StacksBlockId::zero()).unwrap();
    taking.commit().unwrap();
    assert_eq!(
        taking.begin_unconfirmed(&StacksBlockId::sentinel()),
        Err(Error::ExistsError)
    );
    assert_eq!(taking.begin_unconfirmed(&StacksBlockId::zero()), Err(Error::ExistsError));
}

#[test]
fn index_keeps_the_bookkeeping_of_its_side_store() {
    let mut marf = Marf::new(false);
    marf.insert_metadata(&id(1), "k", "m");
    assert_eq!(marf.sqlite_conn().get_metadata(&id(1), "k"), Some("m".to_string()));
    marf.commit_metadata_to(&id(1), &id(2));
    assert_eq!(marf.sqlite_conn().get_metadata(&id(1), "k"), None);
    assert_eq!(marf.sqlite_conn().get_metadata(&id(2), "k"), Some("m".to_string()));
    marf.drop_metadata(&id(2));
    assert_eq!(marf.sqlite_conn().get_metadata(&id(2), "k"), None);
    marf.put_value("aa", "v");
    assert_eq!(marf.sqlite_conn().get("aa"), Some("v".to_string()));
}
