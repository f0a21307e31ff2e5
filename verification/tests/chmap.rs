use dbuf::chmap::{DefaultHasher, HashTableOperation, Table, Writer};
use dbuf::op::Operation;

#[test]
fn op_log_replay() {
    let (mut writer, mut data) = Writer::new();
    let reader = writer.reader(&mut data);

    writer.insert(1, 2);
    writer.insert(3, 4);
    assert!(writer.publish(&mut data));

    let guard = reader.load(&mut data);
    let mut pairs = guard.iter(&data);
    pairs.sort();
    assert_eq!(pairs, vec![(1, 2), (3, 4)]);
    assert_eq!(guard.get(&data, 1), Some(2));
    assert_eq!(guard.get_key_value(&data, 3), Some((3, 4)));
    assert!(!guard.contains_key(&data, 2));
    let reader = guard.release(&mut data);

    writer.remove(1);
    assert!(writer.publish(&mut data));

    let guard = reader.load(&mut data);
    assert_eq!(guard.iter(&data), vec![(3, 4)]);
    assert_eq!(guard.get(&data, 1), None);
    assert!(guard.contains_key(&data, 3));
    let _ = guard.release(&mut data);

    // the insertions have been applied to both tables and are gone;
    // the removal waits for the other table
    assert!(writer.publish(&mut data));
    assert_eq!(writer.get(&data, 3), Some(4));
    assert_eq!(writer.get(&data, 1), None);
    assert!(writer.publish(&mut data));
    assert_eq!(writer.get_key_value(&data, 3), Some((3, 4)));
    assert!(!writer.contains_key(&data, 1));
}

#[test]
fn writer_sees_its_own_table_without_what_is_only_noted() {
    let (mut writer, mut data) = Writer::with_hasher(DefaultHasher::new());
    writer.insert(1, 1);
    assert_eq!(writer.get(&data, 1), None);
    assert!(writer.publish(&mut data));
    // the table that got the insertion is with the readers now
    assert_eq!(writer.get(&data, 1), None);
    assert!(writer.publish(&mut data));
    assert_eq!(writer.get(&data, 1), Some(1));
}

#[test]
fn into_get_narrows_the_guard_to_a_value() {
    let (mut writer, mut data) = Writer::new();
    let reader = writer.reader(&mut data);
    writer.insert(8, 80);
    assert!(writer.publish(&mut data));
    let guard = reader.load(&mut data);
    let guard = match guard.into_get(&data, 9) {
        Ok(_) => panic!("the key is not there"),
        Err(guard) => guard,
    };
    let value = guard.into_get(&data, 8).ok().unwrap();
    assert_eq!(value.get(), 80);
    // the table is still pinned: the writer cannot publish twice
    assert!(writer.publish(&mut data));
    writer.insert(8, 81);
    assert!(!writer.publish(&mut data));
    let reader = value.into_table().release(&mut data);
    assert!(writer.publish(&mut data));
    let second = reader.clone(&mut data);
    let guard = second.load(&mut data);
    assert_eq!(guard.get(&data, 8), Some(81));
}

#[test]
fn table_holds_one_value_for_each_key() {
    let hasher = DefaultHasher::new();
    let mut table = Table::new();
    assert_eq!(table.get_key_value(&hasher, 1), None);
    for key in 0..1000 {
        table.insert(&hasher, key, key * 2);
    }
    for key in 0..1000 {
        assert_eq!(table.get_key_value(&hasher, key), Some((key, key * 2)));
    }
    table.insert(&hasher, 5, 55);
    assert_eq!(table.get_key_value(&hasher, 5), Some((5, 55)));
    assert_eq!(table.iter().len(), 1000);
    for key in 0..500 {
        table.remove(&hasher, key);
    }
    table.remove(&hasher, 0);
    assert_eq!(table.get_key_value(&hasher, 499), None);
    assert_eq!(table.get_key_value(&hasher, 500), Some((500, 1000)));
    let mut pairs = table.iter();
    pairs.sort();
    assert_eq!(pairs.len(), 500);
    assert_eq!(pairs[0], (500, 1000));
}

#[test]
fn hasher_gives_the_same_hash_for_the_same_key() {
    let hasher = DefaultHasher::new();
    assert_eq!(hasher.hash_one(7), DefaultHasher::new().hash_one(7));
    assert_ne!(hasher.hash_one(7), hasher.hash_one(8));
    assert_ne!(hasher.hash_one(7), 7);
}

#[test]
fn operations_change_the_table_they_are_given() {
    let hasher = DefaultHasher::new();
    let mut table = Table::new();
    let mut insert = HashTableOperation::Insert { key: 1, value: 2 };
    insert.apply(&mut table, &hasher, &mut ());
    assert_eq!(table.get_key_value(&hasher, 1), Some((1, 2)));
    let mut other = Table::new();
    insert.apply_once(&mut other, &hasher, &mut ());
    assert_eq!(other.iter(), vec![(1, 2)]);
    HashTableOperation::Remove { key: 1 }.apply_once(&mut table, &hasher, &mut ());
    assert_eq!(table.iter(), vec![]);
}
