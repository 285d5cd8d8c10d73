use pap::corpus::SqlCorpus;
use pap::error::PapError;
use pap::steps::{FuzzHarness, HARNESS_RETURN_ADDRESS};
use pap::store::Store;

#[test]
fn corpus_keys_are_big_endian() {
    let c = SqlCorpus::new("corpus".to_string());
    assert_eq!(c.make_key(0), vec![0, 0, 0, 0, 0, 0, 0, 0]);
    assert_eq!(c.make_key(1), vec![0, 0, 0, 0, 0, 0, 0, 1]);
    assert_eq!(c.make_key(0x0102), vec![0, 0, 0, 0, 0, 0, 1, 2]);
}

#[test]
fn corpus_bookkeeping() {
    let mut store = Store::new();
    let mut c = SqlCorpus::new("corpus".to_string());
    assert_eq!(c.first(), None);
    assert_eq!(c.add(&mut store, b"aaaa".to_vec(), false), 0);
    assert_eq!(c.add(&mut store, b"bbbb".to_vec(), true), 1);
    assert_eq!(c.add(&mut store, b"cccc".to_vec(), false), 2);
    assert_eq!(c.count(), 2);
    assert_eq!(c.count_disabled(), 1);
    assert_eq!(c.count_all(), 3);
    assert_eq!(c.peek_free_id(), 3);
    assert_eq!(c.next(0), None);
    assert_eq!(c.next(1), Some(2));
    assert_eq!(c.prev(2), None);
    assert_eq!(c.prev(1), Some(0));
    assert_eq!(c.prev(0), None);
    assert_eq!(c.first(), Some(0));
    assert_eq!(c.last(), Some(2));
    assert_eq!(c.load_input(&store, 2).unwrap(), b"cccc".to_vec());
    assert_eq!(store.get_object("corpus", &vec![0, 0, 0, 0, 0, 0, 0, 1]).unwrap(), b"bbbb".to_vec());

    c.replace(&mut store, 2, b"dddd".to_vec()).unwrap();
    assert_eq!(c.load_input(&store, 2).unwrap(), b"dddd".to_vec());
    assert!(matches!(c.replace(&mut store, 9, vec![]), Err(PapError::NotFound(_))));

    c.remove(&mut store, 0).unwrap();
    assert!(!c.contains(0));
    assert_eq!(c.load_input(&store, 0).unwrap(), Vec::<u8>::new());
    assert_eq!(c.first(), Some(2));
    assert_eq!(c.count_all(), 2);
    assert!(matches!(c.remove(&mut store, 0), Err(PapError::NotFound(_))));
    c.remove(&mut store, 2).unwrap();
    assert_eq!(c.last(), None);
    assert!(matches!(c.load_input(&store, 7), Err(PapError::NotFound(_))));
}

#[test]
fn harness_layout() {
    let h = FuzzHarness::new(0x4100_0000, 0x8074e50, 0x2001_0000, "x".to_string());
    assert_eq!(h.return_addr, 0x1336);
    assert_eq!(HARNESS_RETURN_ADDRESS, 0x1336);
    assert_eq!(h.func_addr, 0x8074e50);
    assert_eq!(h.stack_addr, 0x2001_0000);
    assert_eq!(h.input_addr, 0x4100_0000);
}
