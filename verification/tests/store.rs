use validator::encoding::encode;
use validator::mempool::{create_txs, stored_record, Mempool};
use validator::tx::Tx;

fn record(tag: &str) -> Tx {
    Tx {
        id: tag.to_string(),
        pk: "02ab".to_string(),
        to: "0x192ff".to_string(),
        amt: "1f".to_string(),
        code: "0".to_string(),
        nonce: "2a".to_string(),
        fee: "7".to_string(),
        data: "None".to_string(),
        sig: "3045".to_string(),
        conf: 0,
    }
}

#[test]
fn new_store_is_empty() {
    let mempool = Mempool::new();
    assert_eq!(mempool.len(), 0);
    assert_eq!(mempool.get(0), None);
    assert!(mempool.iter_read().is_empty());
    assert_eq!(mempool.reader().len(), 0);
    assert_eq!(mempool.reader().get(0), None);
}

#[test]
fn added_record_is_visible_after_publish_only() {
    let mut mempool = Mempool::new();
    mempool.add(&record("first"));
    assert_eq!(mempool.get(0), None);
    assert_eq!(mempool.len(), 0);
    mempool.refresh();
    assert_eq!(mempool.get(0), Some(record("first")));
    assert_eq!(mempool.len(), 1);
    mempool.add(&record("second"));
    assert_eq!(mempool.get(0), Some(record("first")));
    assert_eq!(mempool.get(1), None);
    assert_eq!(mempool.len(), 1);
    mempool.refresh();
    assert_eq!(mempool.get(0), Some(record("first")));
    assert_eq!(mempool.get(1), Some(record("second")));
    assert_eq!(mempool.get(2), None);
    assert_eq!(mempool.len(), 2);
}

#[test]
fn keys_are_given_in_order() {
    let mut mempool = Mempool::new();
    for i in 0..50 {
        mempool.add(&record(&format!("r{}", i)));
    }
    mempool.refresh();
    assert_eq!(mempool.len(), 50);
    for i in 0..50 {
        assert_eq!(mempool.get(i).unwrap().id, format!("r{}", i));
    }
    assert_eq!(mempool.get(50), None);
}

#[test]
fn update_is_pending_until_publish() {
    let mut mempool = Mempool::new();
    mempool.add(&record("old"));
    mempool.refresh();
    mempool.update(0, &record("new"));
    assert_eq!(mempool.get(0), Some(record("old")));
    mempool.refresh();
    assert_eq!(mempool.get(0), Some(record("new")));
    assert_eq!(mempool.len(), 1);
    mempool.refresh();
    assert_eq!(mempool.get(0), Some(record("new")));
}

#[test]
fn update_of_unused_key_changes_nothing() {
    let mut mempool = Mempool::new();
    mempool.add(&record("only"));
    mempool.update(1, &record("stray"));
    mempool.update(usize::MAX, &record("stray"));
    mempool.refresh();
    assert_eq!(mempool.len(), 1);
    assert_eq!(mempool.get(1), None);
    mempool.add(&record("next"));
    mempool.refresh();
    assert_eq!(mempool.get(1), Some(record("next")));
    assert_eq!(mempool.len(), 2);
}

#[test]
fn publish_without_changes_is_a_no_op() {
    let mut mempool = Mempool::new();
    mempool.refresh();
    assert_eq!(mempool.len(), 0);
    mempool.add(&record("a"));
    mempool.refresh();
    mempool.refresh();
    mempool.refresh();
    assert_eq!(mempool.len(), 1);
    assert_eq!(mempool.get(0), Some(record("a")));
}

#[test]
fn readers_see_the_published_generation() {
    let mut mempool = Mempool::new();
    let early = mempool.reader();
    mempool.add(&record("a"));
    let reader = mempool.reader();
    let copy = reader.clone();
    assert_eq!(reader.get(0), None);
    assert_eq!(early.get(0), None);
    assert_eq!(copy.len(), 0);
    mempool.refresh();
    assert_eq!(reader.get(0), Some(record("a")));
    assert_eq!(early.get(0), Some(record("a")));
    assert_eq!(copy.get(0), Some(record("a")));
    assert_eq!(copy.len(), 1);
    mempool.update(0, &record("b"));
    mempool.add(&record("c"));
    assert_eq!(reader.get(0), Some(record("a")));
    assert_eq!(copy.get(1), None);
    mempool.refresh();
    assert_eq!(reader.get(0), Some(record("b")));
    assert_eq!(copy.get(1), Some(record("c")));
}

#[test]
fn iter_read_checks_every_published_record() {
    let mut mempool = Mempool::new();
    let valid = Tx::random();
    mempool.add(&valid);
    mempool.add(&record("forged"));
    mempool.add(&valid.confirm());
    mempool.refresh();
    mempool.add(&valid);
    assert_eq!(mempool.iter_read(), vec![Some(true), Some(false), Some(true)]);
}

#[test]
fn created_records_are_published_and_valid() {
    let mempool = create_txs(25);
    assert_eq!(mempool.len(), 25);
    for key in 0..25 {
        let tx = mempool.get(key).unwrap();
        assert_eq!(tx.conf, 0);
        assert_eq!(tx.validate(), Ok(()));
    }
    assert_eq!(mempool.get(25), None);
    assert_eq!(mempool.iter_read(), vec![Some(true); 25]);
    assert_eq!(create_txs(0).len(), 0);
}

#[test]
fn stored_record_reads_what_the_map_gave() {
    assert_eq!(stored_record(None), None);
    assert_eq!(stored_record(Some(encode(&record("a")))), Some(record("a")));
    assert_eq!(stored_record(Some("no record".to_string())), None);
    assert_eq!(stored_record(Some(format!("{} ", encode(&record("a"))))), None);
    assert_eq!(stored_record(Some(String::new())), None);
}
