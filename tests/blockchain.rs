use minichain::block::{Block, BlockError, TARGET_HEXT};
use minichain::blockchain::Blockchain;
use minichain::ledger::UtxoLedger;
use minichain::pow::{digest, has_leading_zeros, push_decimal};
use minichain::transaction::{Transaction, UTXO};

fn funded(owner: &str, amounts: &[u64]) -> UtxoLedger {
    let mut ledger = UtxoLedger::new();
    for (i, a) in amounts.iter().enumerate() {
        ledger.add_utxo(UTXO::new(
            "genesis_tx".to_string(),
            i as u32,
            *a,
            owner.to_string(),
        ));
    }
    ledger
}

fn total(ledger: &UtxoLedger, owner: &str) -> u64 {
    match ledger.utxos_of(&owner.to_string()) {
        None => 0,
        Some(s) => s.iter().map(|u| u.get_amount()).sum(),
    }
}

#[test]
fn test_blockchain() {
    let mut b = Blockchain::new().unwrap();

    b.add_block("data1".to_string()).unwrap();
    b.add_block("data2".to_string()).unwrap();
    b.add_block("data3".to_string()).unwrap();
}

#[test]
fn genesis_only_chain() {
    let b = Blockchain::new().unwrap();
    let blocks = b.blocks();
    assert_eq!(blocks.len(), 1);
    assert_eq!(blocks[0].get_height(), 0);
    assert_eq!(blocks[0].get_prev_hash(), "");
    assert_eq!(blocks[0].get_data(), "Genesis block");
    assert!(blocks[0].get_hash().starts_with("0000"));
}

#[test]
fn three_appends_are_linked_and_sealed() {
    let mut b = Blockchain::new().unwrap();
    for d in ["data1", "data2", "data3"] {
        b.add_block(d.to_string()).unwrap();
    }
    let blocks = b.blocks();
    assert_eq!(blocks.len(), 4);
    assert_eq!(blocks[1].get_data(), "data1");
    assert_eq!(blocks[2].get_data(), "data2");
    assert_eq!(blocks[3].get_data(), "data3");
    for i in 0..4 {
        assert_eq!(blocks[i].get_height(), i);
        assert_eq!(blocks[i].get_difficulty(), TARGET_HEXT);
        assert!(blocks[i].get_hash().starts_with("0000"));
        assert_eq!(blocks[i].get_hash(), digest(&blocks[i].prepare_hash_data()));
    }
    for i in 1..4 {
        assert_eq!(blocks[i].get_prev_hash(), blocks[i - 1].get_hash());
    }
}

#[test]
fn digest_is_sha256_hex() {
    assert_eq!(
        digest("abc"),
        "ba7816bf8f01cfea414140de5dae2223b00361a396177a9cb410ff61f20015ad"
    );
    assert_eq!(
        digest(""),
        "e3b0c44298fc1c149afbf4c8996fb92427ae41e4649b934ca495991b7852b855"
    );
}

#[test]
fn sealed_hash_is_lowercase_hex_of_digest_length() {
    let b = Block::new_block_at("x".to_string(), String::new(), 0, 5, 1).unwrap();
    let h = b.get_hash();
    assert_eq!(h.len(), 64);
    assert!(h
        .chars()
        .all(|c| c.is_ascii_digit() || ('a'..='f').contains(&c)));
}

#[test]
fn transaction_id_covers_inputs() {
    let mut l1 = funded("alice", &[100]);
    let mut l2 = UtxoLedger::new();
    l2.add_utxo(UTXO::new("other_tx".to_string(), 0, 100, "alice".to_string()));
    let a = l1.create_transfer(&"alice".to_string(), &"bob".to_string(), 50).unwrap();
    let b = l2.create_transfer(&"alice".to_string(), &"bob".to_string(), 50).unwrap();
    assert_ne!(a.get_tx_id(), b.get_tx_id());
}

#[test]
fn digest_is_deterministic() {
    let a = digest("same input");
    let b = digest("same input");
    assert_eq!(a, b);
    assert_eq!(a.len(), 64);
    assert_ne!(a, digest("other input"));
}

#[test]
fn leading_zero_predicate() {
    assert!(has_leading_zeros("00ab", 0));
    assert!(has_leading_zeros("00ab", 2));
    assert!(!has_leading_zeros("00ab", 3));
    assert!(!has_leading_zeros("00", 3));
    assert!(has_leading_zeros("", 0));
}

#[test]
fn decimal_notation() {
    let mut s = String::from("x");
    push_decimal(&mut s, 0);
    assert_eq!(s, "x0");
    push_decimal(&mut s, 1234567890);
    assert_eq!(s, "x01234567890");
    let mut t = String::new();
    push_decimal(&mut t, u128::MAX);
    assert_eq!(t, u128::MAX.to_string());
}

#[test]
fn hash_data_concatenates_header() {
    let b = Block::new_block_at("pay".to_string(), "prev".to_string(), 7, 1234, 0).unwrap();
    assert_eq!(b.get_nonce(), 0);
    assert_eq!(b.prepare_hash_data(), "prevpay123400");
    assert_eq!(b.get_hash(), digest("prevpay123400"));
    assert_eq!(b.get_height(), 7);
    assert_eq!(b.get_timestamp(), 1234);
}

#[test]
fn seal_finds_first_nonce() {
    let b = Block::new_block_at("payload".to_string(), "abc".to_string(), 1, 42, 2).unwrap();
    assert!(b.get_hash().starts_with("00"));
    for n in 0..b.get_nonce() {
        let h = digest(&format!("abcpayload422{}", n));
        assert!(!h.starts_with("00"));
    }
    assert_eq!(
        b.get_hash(),
        digest(&format!("abcpayload422{}", b.get_nonce()))
    );
}

#[test]
fn unreachable_difficulty_is_rejected() {
    let r = Block::new_block_at("p".to_string(), String::new(), 0, 0, 65);
    assert_eq!(r.unwrap_err(), BlockError::UnreachableDifficulty);
}

#[test]
fn genesis_block_fields() {
    let g = Block::new_genesis_block().unwrap();
    assert_eq!(g.get_height(), 0);
    assert_eq!(g.get_prev_hash(), "");
    assert_eq!(g.get_data(), "Genesis block");
}

#[test]
fn transfer_with_change() {
    let mut ledger = funded("alice", &[50, 70, 30]);
    let tx = ledger
        .create_transfer(&"alice".to_string(), &"bob".to_string(), 100)
        .unwrap();
    assert_eq!(tx.inputs().len(), 2);
    assert_eq!(tx.outputs().len(), 2);
    assert_eq!(tx.outputs()[0].get_amount(), 100);
    assert_eq!(tx.outputs()[0].get_owner(), "bob");
    assert_eq!(tx.outputs()[0].get_output_index(), 0);
    assert_eq!(tx.outputs()[1].get_amount(), 20);
    assert_eq!(tx.outputs()[1].get_owner(), "alice");
    assert_eq!(tx.outputs()[1].get_output_index(), 1);
    assert_eq!(total(&ledger, "alice"), 50);
    assert_eq!(total(&ledger, "bob"), 100);
}

#[test]
fn transfer_from_150_leaves_change_of_50() {
    let mut ledger = funded("alice", &[150]);
    let tx = ledger
        .create_transfer(&"alice".to_string(), &"bob".to_string(), 100)
        .unwrap();
    assert_eq!(tx.outputs().len(), 2);
    assert_eq!(tx.outputs()[0].get_amount(), 100);
    assert_eq!(tx.outputs()[0].get_owner(), "bob");
    assert_eq!(tx.outputs()[1].get_amount(), 50);
    assert_eq!(tx.outputs()[1].get_owner(), "alice");
    assert_eq!(total(&ledger, "alice"), 50);
    assert_eq!(total(&ledger, "bob"), 100);
}

#[test]
fn exact_transfer_has_no_change() {
    let mut ledger = funded("alice", &[60, 40]);
    let tx = ledger
        .create_transfer(&"alice".to_string(), &"bob".to_string(), 100)
        .unwrap();
    assert_eq!(tx.inputs().len(), 2);
    assert_eq!(tx.outputs().len(), 1);
    assert_eq!(tx.outputs()[0].get_amount(), 100);
    assert_eq!(ledger.utxos_of(&"alice".to_string()).unwrap().len(), 0);
    assert_eq!(total(&ledger, "bob"), 100);
}

#[test]
fn insufficient_balance_changes_nothing() {
    let mut ledger = funded("alice", &[10, 30]);
    let before: Vec<UTXO> = ledger.utxos_of(&"alice".to_string()).unwrap().to_vec();
    let r = ledger.create_transfer(&"alice".to_string(), &"bob".to_string(), 100);
    assert!(r.is_none());
    assert_eq!(total(&ledger, "alice"), 40);
    assert_eq!(ledger.utxos_of(&"alice".to_string()).unwrap().to_vec(), before);
    assert!(ledger.utxos_of(&"bob".to_string()).is_none());
}

#[test]
fn unknown_sender_gets_nothing() {
    let mut ledger = funded("alice", &[10]);
    let r = ledger.create_transfer(&"carol".to_string(), &"bob".to_string(), 0);
    assert!(r.is_none());
    assert!(ledger.utxos_of(&"carol".to_string()).is_none());
    assert_eq!(total(&ledger, "alice"), 10);
}

#[test]
fn self_transfer_keeps_balance() {
    let mut ledger = funded("alice", &[30, 30]);
    let tx = ledger
        .create_transfer(&"alice".to_string(), &"alice".to_string(), 40)
        .unwrap();
    assert_eq!(tx.outputs().len(), 2);
    let left = ledger.utxos_of(&"alice".to_string()).unwrap();
    assert_eq!(left.len(), 2);
    assert_eq!(left[0].get_output_index(), 0);
    assert_eq!(left[0].get_amount(), 40);
    assert_eq!(left[1].get_output_index(), 1);
    assert_eq!(left[1].get_amount(), 20);
}

#[test]
fn value_is_conserved_over_transfers() {
    let mut ledger = funded("alice", &[100, 25, 75]);
    let names = ["alice", "bob", "carol"];
    let steps = [
        ("alice", "bob", 60u64),
        ("bob", "carol", 10),
        ("alice", "carol", 90),
        ("carol", "alice", 100),
        ("bob", "alice", 50),
    ];
    let mut expected = [200u64, 0, 0];
    for (from, to, amount) in steps {
        let r = ledger.create_transfer(&from.to_string(), &to.to_string(), amount);
        if r.is_some() {
            let fi = names.iter().position(|n| *n == from).unwrap();
            let ti = names.iter().position(|n| *n == to).unwrap();
            expected[fi] -= amount;
            expected[ti] += amount;
        }
        for (i, n) in names.iter().enumerate() {
            assert_eq!(total(&ledger, n), expected[i]);
        }
    }
    assert_eq!(expected.iter().sum::<u64>(), 200);
}

#[test]
fn transaction_id_comes_from_counter_and_parties() {
    let mut ledger = funded("alice", &[500]);
    let t0 = ledger
        .create_transfer(&"alice".to_string(), &"bob".to_string(), 100)
        .unwrap();
    let t1 = ledger
        .create_transfer(&"alice".to_string(), &"bob".to_string(), 100)
        .unwrap();
    assert_eq!(t0.get_tx_id(), digest("0:alice>bob:100:genesis_tx#0;"));
    let change_id = t0.get_tx_id();
    assert_eq!(
        t1.get_tx_id(),
        digest(&format!("1:alice>bob:100:{}#1;", change_id))
    );
    assert_ne!(t0.get_tx_id(), t1.get_tx_id());
    assert_eq!(t0.outputs()[0].get_tx_id(), t0.get_tx_id());
}

#[test]
fn chain_transfer_through_its_ledger() {
    let mut b = Blockchain::new().unwrap();
    b.add_utxo(UTXO::new("seed".to_string(), 0, 150, "alice".to_string()));
    let tx = b
        .initiate_tx("alice".to_string(), "bob".to_string(), 100)
        .unwrap();
    assert_eq!(tx.inputs()[0].get_amount(), 150);
    assert_eq!(total(b.ledger(), "alice"), 50);
    assert_eq!(total(b.ledger(), "bob"), 100);
    assert!(b.initiate_tx("bob".to_string(), "alice".to_string(), 101).is_none());
    assert_eq!(b.blocks().len(), 1);
    Transaction::send();
}
