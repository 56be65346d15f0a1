use marfed_kv::backing::ClarityBackingStore;
use marfed_kv::index::Marf;
use marfed_kv::merkle::TrieMerkleProof;
use marfed_kv::store::MarfedKV;
use marfed_kv::types::{MARFValue, StacksBlockId, TrieHash};

fn item(key: &str, value: &str) -> (String, String) {
    (key.to_string(), value.to_string())
}

#[test]
fn proof_of_a_committed_value_verifies_against_the_root_hash() {
    let mut kv = MarfedKV::open(None);
    let tip = StacksBlockId([1u8; 32]);
    let mut w = kv.begin(&StacksBlockId::sentinel(), &tip);
    w.put_all(vec![item("a", "1"), item("k", "v"), item("z", "26")]);
    w.commit_to(&tip);
    kv.set_chain_tip(&tip);
    let root = kv.get_root_hash();

    let mut r = kv.begin_read_only(Some(&tip));
    for (key, value) in [("a", "1"), ("k", "v"), ("z", "26")] {
        let (found, proof) = r.get_with_proof(key).unwrap();
        assert_eq!(found, value);
        assert!(proof.verify(key, &MARFValue::from_value(value), &root));
        assert!(!proof.verify(key, &MARFValue::from_value("other"), &root));
        assert!(!proof.verify("other", &MARFValue::from_value(value), &root));
        assert!(!proof.verify(key, &MARFValue::from_value(value), &TrieHash([9u8; 32])));
    }
    assert!(r.get_with_proof("missing").is_none());
}

#[test]
fn proof_covers_an_overwritten_key_and_inherited_writes() {
    let mut kv = MarfedKV::open(None);
    let one = StacksBlockId([1u8; 32]);
    let two = StacksBlockId([2u8; 32]);
    let mut w = kv.begin(&StacksBlockId::sentinel(), &one);
    w.put_all(vec![item("k", "old"), item("j", "kept")]);
    w.commit_to(&one);
    let mut w = kv.begin(&one, &two);
    w.put_all(vec![item("k", "new")]);
    let root = w.get_root_hash();
    let (found, proof) = w.get_with_proof("k").unwrap();
    assert_eq!(found, "new");
    assert!(proof.verify("k", &MARFValue::from_value("new"), &root));
    assert!(!proof.verify("k", &MARFValue::from_value("old"), &root));
    let (kept, proof) = w.get_with_proof("j").unwrap();
    assert_eq!(kept, "kept");
    assert!(proof.verify("j", &MARFValue::from_value("kept"), &root));
    w.commit_to(&two);

    kv.set_chain_tip(&one);
    let old_root = kv.get_root_hash();
    assert_ne!(old_root, root);
    let mut r = kv.begin_read_only(Some(&one));
    let (found, proof) = r.get_with_proof("k").unwrap();
    assert_eq!(found, "old");
    assert!(proof.verify("k", &MARFValue::from_value("old"), &old_root));
    assert!(!proof.verify("k", &MARFValue::from_value("old"), &root));
}

#[test]
fn proof_put_together_by_hand_is_held_to_the_root_hash() {
    let value = MARFValue::from_value("v");
    let later = MARFValue::from_value("w");
    let root = TrieHash::empty().extend("k", &value).extend("l", &later);

    let good = TrieMerkleProof::new(TrieHash::empty(), value, vec![("l".to_string(), later)]);
    assert!(good.verify("k", &value, &root));

    let wrong_start = TrieMerkleProof::new(TrieHash([1u8; 32]), value, vec![("l".to_string(), later)]);
    assert!(!wrong_start.verify("k", &value, &root));

    let missing_write = TrieMerkleProof::new(TrieHash::empty(), value, vec![]);
    assert!(!missing_write.verify("k", &value, &root));

    let changed_write = TrieMerkleProof::new(TrieHash::empty(), value, vec![("l".to_string(), value)]);
    assert!(!changed_write.verify("k", &value, &root));

    let overwritten = TrieMerkleProof::new(TrieHash::empty(), value, vec![("k".to_string(), later)]);
    let overwritten_root = TrieHash::empty().extend("k", &value).extend("k", &later);
    assert!(!overwritten.verify("k", &value, &overwritten_root));
}

#[test]
fn index_gives_the_hash_with_its_proof() {
    let mut marf = Marf::new(false);
    let value = MARFValue::from_value("v");
    marf.put_value(&value.to_hex(), "v");
    let tip = StacksBlockId([1u8; 32]);
    marf.begin(&StacksBlockId::sentinel(), &tip).unwrap();
    marf.insert_batch(&vec!["k".to_string()], vec![value]).unwrap();
    let root = marf.get_root_hash_at(&tip).unwrap();
    let (found, proof) = marf.get_with_proof(&tip, "k").unwrap();
    assert_eq!(found, value);
    assert!(proof.verify("k", &value, &root));
    assert!(marf.get_with_proof(&tip, "l").is_none());
    assert!(marf.get_with_proof(&StacksBlockId([9u8; 32]), "k").is_none());
}
